//! The persistence format: the whole collection rendered as
//! structured, self-describing text (field names kept, one field per
//! line, text length-prefixed), and its parser. Rendering and parsing
//! are both specified, and parsing a rendered collection provably
//! yields the collection back.

use vstd::prelude::*;

use crate::chars::{
    digits, signed_digits, push_decimal, push_signed, push_str_chars, push_chars,
    spec_parse_decimal, spec_parse_signed, spec_expect, spec_take, parse_decimal, parse_signed,
    expect_lit, take_chars, lemma_parse_decimal_of_digits, lemma_parse_signed_of_digits,
};
use crate::model::{entry_closed_wf, Category, CategoryView, Priority, Status, Task, TaskView, TimeEntry};
use crate::time::Timestamp;

verus! {

// ---------------------------------------------------------------------
// Splitting a known rendering
// ---------------------------------------------------------------------

/// A subrange known to be a concatenation splits into its two parts.
pub proof fn lemma_split(s: Seq<char>, p: int, a: Seq<char>, b: Seq<char>)
    requires
        0 <= p,
        p + a.len() + b.len() <= s.len(),
        s.subrange(p, p + a.len() + b.len()) == a + b,
    ensures
        s.subrange(p, p + a.len()) == a,
        s.subrange(p + a.len(), p + a.len() + b.len()) == b,
{
    let whole = s.subrange(p, p + a.len() + b.len());
    assert(s.subrange(p, p + a.len()) =~= a) by {
        assert(forall|i: int|
            0 <= i < a.len() ==> #[trigger] s.subrange(p, p + a.len())[i] == whole[i]);
    }
    assert(s.subrange(p + a.len(), p + a.len() + b.len()) =~= b) by {
        assert(forall|i: int|
            0 <= i < b.len() ==> #[trigger] s.subrange(p + a.len(), p + a.len() + b.len())[i]
                == whole[a.len() + i]);
    }
}

/// A literal match fails wherever the first character differs.
pub proof fn lemma_expect_fails(s: Seq<char>, p: int, lit: Seq<char>, c: char)
    requires
        0 <= p < s.len(),
        s[p] == c,
        lit.len() > 0,
        lit[0] != c,
    ensures
        spec_expect(s, p, lit) is None,
{
    if spec_expect(s, p, lit) is Some {
        assert(s.subrange(p, p + lit.len())[0] == s[p]);
    }
}

/// The first character under a known rendering.
pub proof fn lemma_first_char(s: Seq<char>, p: int, content: Seq<char>)
    requires
        0 <= p,
        content.len() > 0,
        p + content.len() <= s.len(),
        s.subrange(p, p + content.len()) == content,
    ensures
        s[p] == content[0],
{
    assert(s.subrange(p, p + content.len())[0] == s[p]);
}

// ---------------------------------------------------------------------
// Timestamps
// ---------------------------------------------------------------------

/// A decimal numeral followed by a space.
pub open spec fn num_sp(v: nat) -> Seq<char> {
    digits(v) + seq![' ']
}

/// A signed numeral followed by a space.
pub open spec fn sgn_sp(v: int) -> Seq<char> {
    signed_digits(v) + seq![' ']
}

/// A signed numeral ending its line.
pub open spec fn sgn_nl(v: int) -> Seq<char> {
    signed_digits(v) + seq!['\n']
}

/// A decimal numeral ending its line.
pub open spec fn num_nl(v: nat) -> Seq<char> {
    digits(v) + seq!['\n']
}

/// A timestamp as one line: year, month, day, hour, minute, second,
/// offset. The concatenation nests to the right so that a parser's
/// view peels one field at a time.
pub open spec fn render_ts(t: Timestamp) -> Seq<char> {
    sgn_sp(t.year as int) + (num_sp(t.month as nat) + (num_sp(t.day as nat) + (num_sp(
        t.hour as nat,
    ) + (num_sp(t.minute as nat) + (num_sp(t.second as nat) + sgn_nl(t.offset_seconds as int))))))
}

/// Parse of a timestamp line. Fields that must fit a byte are checked
/// here; calendar validity is the loader's well-formedness check.
pub open spec fn ps_ts(s: Seq<char>, p: int) -> Option<(Timestamp, int)> {
    match spec_parse_signed(s, p, ' ') {
        None => None,
        Some((year, p1)) => match spec_parse_decimal(s, p1, ' ') {
            None => None,
            Some((month, p2)) => match spec_parse_decimal(s, p2, ' ') {
                None => None,
                Some((day, p3)) => match spec_parse_decimal(s, p3, ' ') {
                    None => None,
                    Some((hour, p4)) => match spec_parse_decimal(s, p4, ' ') {
                        None => None,
                        Some((minute, p5)) => match spec_parse_decimal(s, p5, ' ') {
                            None => None,
                            Some((second, p6)) => match spec_parse_signed(s, p6, '\n') {
                                None => None,
                                Some((offset, p7)) => if month <= 255 && day <= 255 && hour <= 255
                                    && minute <= 255 && second <= 255 {
                                    Some(
                                        (
                                            Timestamp {
                                                year,
                                                month: month as u8,
                                                day: day as u8,
                                                hour: hour as u8,
                                                minute: minute as u8,
                                                second: second as u8,
                                                offset_seconds: offset,
                                            },
                                            p7,
                                        ),
                                    )
                                } else {
                                    None
                                },
                            },
                        },
                    },
                },
            },
        },
    }
}

/// Appending seven pieces one after another is appending their
/// right-nested concatenation.
pub proof fn lemma_assoc7(
    o: Seq<char>,
    a1: Seq<char>,
    a2: Seq<char>,
    a3: Seq<char>,
    a4: Seq<char>,
    a5: Seq<char>,
    a6: Seq<char>,
    a7: Seq<char>,
)
    ensures
        o + a1 + a2 + a3 + a4 + a5 + a6 + a7 == o + (a1 + (a2 + (a3 + (a4 + (a5 + (a6 + a7)))))),
{
    assert(o + a1 + a2 + a3 + a4 + a5 + a6 + a7 =~= o + (a1 + (a2 + (a3 + (a4 + (a5 + (a6
        + a7)))))));
}

pub fn push_ts(out: &mut Vec<char>, t: &Timestamp)
    requires
        t.year > i64::MIN,
        t.offset_seconds > i64::MIN,
    ensures
        final(out)@ == old(out)@ + render_ts(*t),
{
    let ghost base = out@;
    push_signed(out, t.year as i128);
    out.push(' ');
    assert(out@ =~= base + sgn_sp(t.year as int));
    let ghost o1 = out@;
    push_decimal(out, t.month as u128);
    out.push(' ');
    assert(out@ =~= o1 + num_sp(t.month as nat));
    let ghost o2 = out@;
    push_decimal(out, t.day as u128);
    out.push(' ');
    assert(out@ =~= o2 + num_sp(t.day as nat));
    let ghost o3 = out@;
    push_decimal(out, t.hour as u128);
    out.push(' ');
    assert(out@ =~= o3 + num_sp(t.hour as nat));
    let ghost o4 = out@;
    push_decimal(out, t.minute as u128);
    out.push(' ');
    assert(out@ =~= o4 + num_sp(t.minute as nat));
    let ghost o5 = out@;
    push_decimal(out, t.second as u128);
    out.push(' ');
    assert(out@ =~= o5 + num_sp(t.second as nat));
    let ghost o6 = out@;
    push_signed(out, t.offset_seconds as i128);
    out.push('\n');
    assert(out@ =~= o6 + sgn_nl(t.offset_seconds as int));
    proof {
        lemma_assoc7(
            base,
            sgn_sp(t.year as int),
            num_sp(t.month as nat),
            num_sp(t.day as nat),
            num_sp(t.hour as nat),
            num_sp(t.minute as nat),
            num_sp(t.second as nat),
            sgn_nl(t.offset_seconds as int),
        );
    }
}

pub fn parse_ts(s: &Vec<char>, p: usize) -> (r: Option<(Timestamp, usize)>)
    requires
        p <= s@.len(),
    ensures
        r matches Some(v) ==> ps_ts(s@, p as int) == Some((v.0, v.1 as int)) && v.1 <= s@.len(),
        r is None ==> ps_ts(s@, p as int) is None,
{
    let (year, p1) = match parse_signed(s, p, ' ') {
        None => {
            return None;
        },
        Some(v) => v,
    };
    let (month, p2) = match parse_decimal(s, p1, ' ') {
        None => {
            return None;
        },
        Some(v) => v,
    };
    let (day, p3) = match parse_decimal(s, p2, ' ') {
        None => {
            return None;
        },
        Some(v) => v,
    };
    let (hour, p4) = match parse_decimal(s, p3, ' ') {
        None => {
            return None;
        },
        Some(v) => v,
    };
    let (minute, p5) = match parse_decimal(s, p4, ' ') {
        None => {
            return None;
        },
        Some(v) => v,
    };
    let (second, p6) = match parse_decimal(s, p5, ' ') {
        None => {
            return None;
        },
        Some(v) => v,
    };
    let (offset, p7) = match parse_signed(s, p6, '\n') {
        None => {
            return None;
        },
        Some(v) => v,
    };
    if month <= 255 && day <= 255 && hour <= 255 && minute <= 255 && second <= 255 {
        Some(
            (
                Timestamp {
                    year,
                    month: month as u8,
                    day: day as u8,
                    hour: hour as u8,
                    minute: minute as u8,
                    second: second as u8,
                    offset_seconds: offset,
                },
                p7,
            ),
        )
    } else {
        None
    }
}

/// Parsing a rendered timestamp yields it back.
#[verifier::rlimit(100)]
pub proof fn rt_ts(s: Seq<char>, p: int, t: Timestamp)
    requires
        0 <= p,
        t.wf(),
        p + render_ts(t).len() <= s.len(),
        s.subrange(p, p + render_ts(t).len()) == render_ts(t),
    ensures
        ps_ts(s, p) == Some((t, p + render_ts(t).len())),
{
    let a1 = sgn_sp(t.year as int);
    let a2 = num_sp(t.month as nat);
    let a3 = num_sp(t.day as nat);
    let a4 = num_sp(t.hour as nat);
    let a5 = num_sp(t.minute as nat);
    let a6 = num_sp(t.second as nat);
    let a7 = sgn_nl(t.offset_seconds as int);
    let p1 = p + a1.len();
    let p2 = p1 + a2.len();
    let p3 = p2 + a3.len();
    let p4 = p3 + a4.len();
    let p5 = p4 + a5.len();
    let p6 = p5 + a6.len();
    lemma_split(s, p, a1, a2 + (a3 + (a4 + (a5 + (a6 + a7)))));
    lemma_split(s, p1, a2, a3 + (a4 + (a5 + (a6 + a7))));
    lemma_split(s, p2, a3, a4 + (a5 + (a6 + a7)));
    lemma_split(s, p3, a4, a5 + (a6 + a7));
    lemma_split(s, p4, a5, a6 + a7);
    lemma_split(s, p5, a6, a7);
    lemma_parse_signed_of_digits(s, p, t.year as i64, ' ');
    lemma_parse_decimal_of_digits(s, p1, t.month as u64, ' ');
    lemma_parse_decimal_of_digits(s, p2, t.day as u64, ' ');
    lemma_parse_decimal_of_digits(s, p3, t.hour as u64, ' ');
    lemma_parse_decimal_of_digits(s, p4, t.minute as u64, ' ');
    lemma_parse_decimal_of_digits(s, p5, t.second as u64, ' ');
    lemma_parse_signed_of_digits(s, p6, t.offset_seconds, '\n');
}

// ---------------------------------------------------------------------
// Length-prefixed text
// ---------------------------------------------------------------------

/// Text as its length, a colon, the characters themselves, and a
/// newline; the characters are free to contain anything.
pub open spec fn render_text(txt: Seq<char>) -> Seq<char> {
    digits(txt.len()) + seq![':'] + txt + seq!['\n']
}

pub open spec fn ps_text(s: Seq<char>, p: int) -> Option<(Seq<char>, int)> {
    match spec_parse_decimal(s, p, ':') {
        None => None,
        Some((len, p1)) => match spec_take(s, p1, len as int) {
            None => None,
            Some((txt, p2)) => match spec_expect(s, p2, "\n"@) {
                None => None,
                Some(p3) => Some((txt, p3)),
            },
        },
    }
}

pub fn push_text(out: &mut Vec<char>, txt: &Vec<char>)
    ensures
        final(out)@ == old(out)@ + render_text(txt@),
{
    push_decimal(out, txt.len() as u128);
    out.push(':');
    push_chars(out, txt);
    out.push('\n');
    assert(out@ =~= old(out)@ + render_text(txt@));
}

pub fn parse_text(s: &Vec<char>, p: usize) -> (r: Option<(Vec<char>, usize)>)
    requires
        p <= s@.len(),
    ensures
        r matches Some(v) ==> ps_text(s@, p as int) == Some((v.0@, v.1 as int)) && v.1 <= s@.len(),
        r is None ==> ps_text(s@, p as int) is None,
{
    let (len, p1) = match parse_decimal(s, p, ':') {
        None => {
            return None;
        },
        Some(v) => v,
    };
    if len > (s.len() - p1) as u64 {
        return None;
    }
    let (txt, p2) = match take_chars(s, p1, len as usize) {
        None => {
            return None;
        },
        Some(v) => v,
    };
    let p3 = match expect_lit(s, p2, "\n") {
        None => {
            return None;
        },
        Some(v) => v,
    };
    Some((txt, p3))
}

/// Parsing rendered text yields it back.
pub proof fn rt_text(s: Seq<char>, p: int, txt: Seq<char>)
    requires
        0 <= p,
        txt.len() <= u64::MAX,
        p + render_text(txt).len() <= s.len(),
        s.subrange(p, p + render_text(txt).len()) == render_text(txt),
    ensures
        ps_text(s, p) == Some((txt, p + render_text(txt).len())),
{
    let a1 = digits(txt.len()) + seq![':'];
    let a2 = txt;
    let a3 = seq!['\n'];
    let p1 = p + a1.len();
    let p2 = p1 + a2.len();
    let p3 = p2 + a3.len();
    assert(render_text(txt) =~= a1 + (a2 + a3));
    lemma_split(s, p, a1, a2 + a3);
    lemma_split(s, p1, a2, a3);
    lemma_parse_decimal_of_digits(s, p, txt.len() as u64, ':');
    assert(spec_take(s, p1, txt.len() as int) == Some((s.subrange(p1, p2), p2)));
    reveal_strlit("\n");
    assert(spec_expect(s, p2, "\n"@) == Some(p3)) by {
        assert("\n"@.len() == 1);
        assert(s.subrange(p2, p2 + 1) =~= "\n"@) by {
            assert(s.subrange(p2, p2 + 1)[0] == a3[0]);
            assert("\n"@[0] == '\n');
        }
    }
}

// ---------------------------------------------------------------------
// Options
// ---------------------------------------------------------------------

pub open spec fn render_opt_ts(o: Option<Timestamp>) -> Seq<char> {
    match o {
        None => "none\n"@,
        Some(t) => "some "@ + render_ts(t),
    }
}

pub open spec fn ps_opt_ts(s: Seq<char>, p: int) -> Option<(Option<Timestamp>, int)> {
    match spec_expect(s, p, "none\n"@) {
        Some(e) => Some((None, e)),
        None => match spec_expect(s, p, "some "@) {
            None => None,
            Some(p1) => match ps_ts(s, p1) {
                None => None,
                Some((t, e)) => Some((Some(t), e)),
            },
        },
    }
}

pub fn push_opt_ts(out: &mut Vec<char>, o: &Option<Timestamp>)
    requires
        o matches Some(t) ==> t.year > i64::MIN && t.offset_seconds > i64::MIN,
    ensures
        final(out)@ == old(out)@ + render_opt_ts(*o),
{
    match o {
        None => {
            push_str_chars(out, "none\n");
        },
        Some(t) => {
            push_str_chars(out, "some ");
            push_ts(out, t);
            assert(out@ =~= old(out)@ + render_opt_ts(*o));
        },
    }
}

pub fn parse_opt_ts(s: &Vec<char>, p: usize) -> (r: Option<(Option<Timestamp>, usize)>)
    requires
        p <= s@.len(),
    ensures
        r matches Some(v) ==> ps_opt_ts(s@, p as int) == Some((v.0, v.1 as int)) && v.1
            <= s@.len(),
        r is None ==> ps_opt_ts(s@, p as int) is None,
{
    match expect_lit(s, p, "none\n") {
        Some(e) => Some((None, e)),
        None => {
            let p1 = match expect_lit(s, p, "some ") {
                None => {
                    return None;
                },
                Some(v) => v,
            };
            match parse_ts(s, p1) {
                None => None,
                Some((t, e)) => Some((Some(t), e)),
            }
        },
    }
}

/// In a rendered option, the "none" match can only succeed on a
/// rendered None: a rendered Some starts with 's'.
pub proof fn rt_opt_ts(s: Seq<char>, p: int, o: Option<Timestamp>)
    requires
        0 <= p,
        o matches Some(t) ==> t.wf(),
        p + render_opt_ts(o).len() <= s.len(),
        s.subrange(p, p + render_opt_ts(o).len()) == render_opt_ts(o),
    ensures
        ps_opt_ts(s, p) == Some((o, p + render_opt_ts(o).len())),
{
    reveal_strlit("none\n");
    reveal_strlit("some ");
    match o {
        None => {
            assert(spec_expect(s, p, "none\n"@) == Some(p + 5));
        },
        Some(t) => {
            lemma_first_char(s, p, render_opt_ts(o));
            assert(render_opt_ts(o)[0] == 's');
            lemma_expect_fails(s, p, "none\n"@, 's');
            lemma_split(s, p, "some "@, render_ts(t));
            rt_ts(s, p + 5, t);
        },
    }
}

pub open spec fn render_opt_text(o: Option<Seq<char>>) -> Seq<char> {
    match o {
        None => "none\n"@,
        Some(txt) => "some "@ + render_text(txt),
    }
}

pub open spec fn ps_opt_text(s: Seq<char>, p: int) -> Option<(Option<Seq<char>>, int)> {
    match spec_expect(s, p, "none\n"@) {
        Some(e) => Some((None, e)),
        None => match spec_expect(s, p, "some "@) {
            None => None,
            Some(p1) => match ps_text(s, p1) {
                None => None,
                Some((txt, e)) => Some((Some(txt), e)),
            },
        },
    }
}

pub fn push_opt_text(out: &mut Vec<char>, o: &Option<Vec<char>>)
    ensures
        final(out)@ == old(out)@ + render_opt_text(crate::ops::opt_text_view(*o)),
{
    match o {
        None => {
            push_str_chars(out, "none\n");
        },
        Some(txt) => {
            push_str_chars(out, "some ");
            push_text(out, txt);
            assert(out@ =~= old(out)@ + render_opt_text(crate::ops::opt_text_view(*o)));
        },
    }
}

pub fn parse_opt_text(s: &Vec<char>, p: usize) -> (r: Option<(Option<Vec<char>>, usize)>)
    requires
        p <= s@.len(),
    ensures
        r matches Some(v) ==> ps_opt_text(s@, p as int) == Some((crate::ops::opt_text_view(v.0), v.1 as int))
            && v.1 <= s@.len(),
        r is None ==> ps_opt_text(s@, p as int) is None,
{
    match expect_lit(s, p, "none\n") {
        Some(e) => Some((None, e)),
        None => {
            let p1 = match expect_lit(s, p, "some ") {
                None => {
                    return None;
                },
                Some(v) => v,
            };
            match parse_text(s, p1) {
                None => None,
                Some((txt, e)) => Some((Some(txt), e)),
            }
        },
    }
}

pub proof fn rt_opt_text(s: Seq<char>, p: int, o: Option<Seq<char>>)
    requires
        0 <= p,
        o matches Some(txt) ==> txt.len() <= u64::MAX,
        p + render_opt_text(o).len() <= s.len(),
        s.subrange(p, p + render_opt_text(o).len()) == render_opt_text(o),
    ensures
        ps_opt_text(s, p) == Some((o, p + render_opt_text(o).len())),
{
    reveal_strlit("none\n");
    reveal_strlit("some ");
    match o {
        None => {
            assert(spec_expect(s, p, "none\n"@) == Some(p + 5));
        },
        Some(txt) => {
            lemma_first_char(s, p, render_opt_text(o));
            assert(render_opt_text(o)[0] == 's');
            lemma_expect_fails(s, p, "none\n"@, 's');
            lemma_split(s, p, "some "@, render_text(txt));
            rt_text(s, p + 5, txt);
        },
    }
}

pub open spec fn render_opt_i64(o: Option<i64>) -> Seq<char> {
    match o {
        None => "none\n"@,
        Some(v) => "some "@ + sgn_nl(v as int),
    }
}

pub open spec fn ps_opt_i64(s: Seq<char>, p: int) -> Option<(Option<i64>, int)> {
    match spec_expect(s, p, "none\n"@) {
        Some(e) => Some((None, e)),
        None => match spec_expect(s, p, "some "@) {
            None => None,
            Some(p1) => match spec_parse_signed(s, p1, '\n') {
                None => None,
                Some((v, e)) => Some((Some(v), e)),
            },
        },
    }
}

pub fn push_opt_i64(out: &mut Vec<char>, o: &Option<i64>)
    requires
        o matches Some(v) ==> v > i64::MIN,
    ensures
        final(out)@ == old(out)@ + render_opt_i64(*o),
{
    match o {
        None => {
            push_str_chars(out, "none\n");
        },
        Some(v) => {
            push_str_chars(out, "some ");
            push_signed(out, *v as i128);
            out.push('\n');
            assert(out@ =~= old(out)@ + render_opt_i64(*o));
        },
    }
}

pub fn parse_opt_i64(s: &Vec<char>, p: usize) -> (r: Option<(Option<i64>, usize)>)
    requires
        p <= s@.len(),
    ensures
        r matches Some(v) ==> ps_opt_i64(s@, p as int) == Some((v.0, v.1 as int)) && v.1
            <= s@.len(),
        r is None ==> ps_opt_i64(s@, p as int) is None,
{
    match expect_lit(s, p, "none\n") {
        Some(e) => Some((None, e)),
        None => {
            let p1 = match expect_lit(s, p, "some ") {
                None => {
                    return None;
                },
                Some(v) => v,
            };
            match parse_signed(s, p1, '\n') {
                None => None,
                Some((v, e)) => Some((Some(v), e)),
            }
        },
    }
}

pub proof fn rt_opt_i64(s: Seq<char>, p: int, o: Option<i64>)
    requires
        0 <= p,
        o matches Some(v) ==> v > i64::MIN,
        p + render_opt_i64(o).len() <= s.len(),
        s.subrange(p, p + render_opt_i64(o).len()) == render_opt_i64(o),
    ensures
        ps_opt_i64(s, p) == Some((o, p + render_opt_i64(o).len())),
{
    reveal_strlit("none\n");
    reveal_strlit("some ");
    match o {
        None => {
            assert(spec_expect(s, p, "none\n"@) == Some(p + 5));
        },
        Some(v) => {
            lemma_first_char(s, p, render_opt_i64(o));
            assert(render_opt_i64(o)[0] == 's');
            lemma_expect_fails(s, p, "none\n"@, 's');
            lemma_split(s, p, "some "@, sgn_nl(v as int));
            lemma_parse_signed_of_digits(s, p + 5, v, '\n');
        },
    }
}

// ---------------------------------------------------------------------
// Enums, by their variant names
// ---------------------------------------------------------------------

pub open spec fn render_priority(v: Priority) -> Seq<char> {
    match v {
        Priority::Low => "Low\n"@,
        Priority::Medium => "Medium\n"@,
        Priority::High => "High\n"@,
        Priority::Urgent => "Urgent\n"@,
    }
}

pub open spec fn ps_priority(s: Seq<char>, p: int) -> Option<(Priority, int)> {
    match spec_expect(s, p, "Low\n"@) {
        Some(e) => Some((Priority::Low, e)),
        None => match spec_expect(s, p, "Medium\n"@) {
            Some(e) => Some((Priority::Medium, e)),
            None => match spec_expect(s, p, "High\n"@) {
                Some(e) => Some((Priority::High, e)),
                None => match spec_expect(s, p, "Urgent\n"@) {
                    Some(e) => Some((Priority::Urgent, e)),
                    None => None,
                },
            },
        },
    }
}

pub fn push_priority(out: &mut Vec<char>, v: &Priority)
    ensures
        final(out)@ == old(out)@ + render_priority(*v),
{
    match v {
        Priority::Low => push_str_chars(out, "Low\n"),
        Priority::Medium => push_str_chars(out, "Medium\n"),
        Priority::High => push_str_chars(out, "High\n"),
        Priority::Urgent => push_str_chars(out, "Urgent\n"),
    }
}

pub fn parse_priority(s: &Vec<char>, p: usize) -> (r: Option<(Priority, usize)>)
    requires
        p <= s@.len(),
    ensures
        r matches Some(v) ==> ps_priority(s@, p as int) == Some((v.0, v.1 as int)) && v.1
            <= s@.len(),
        r is None ==> ps_priority(s@, p as int) is None,
{
    match expect_lit(s, p, "Low\n") {
        Some(e) => Some((Priority::Low, e)),
        None => match expect_lit(s, p, "Medium\n") {
            Some(e) => Some((Priority::Medium, e)),
            None => match expect_lit(s, p, "High\n") {
                Some(e) => Some((Priority::High, e)),
                None => match expect_lit(s, p, "Urgent\n") {
                    Some(e) => Some((Priority::Urgent, e)),
                    None => None,
                },
            },
        },
    }
}

pub proof fn rt_priority(s: Seq<char>, p: int, v: Priority)
    requires
        0 <= p,
        p + render_priority(v).len() <= s.len(),
        s.subrange(p, p + render_priority(v).len()) == render_priority(v),
    ensures
        ps_priority(s, p) == Some((v, p + render_priority(v).len())),
{
    reveal_strlit("Low\n");
    reveal_strlit("Medium\n");
    reveal_strlit("High\n");
    reveal_strlit("Urgent\n");
    lemma_first_char(s, p, render_priority(v));
    match v {
        Priority::Low => {
            assert(spec_expect(s, p, "Low\n"@) == Some(p + 4));
        },
        Priority::Medium => {
            lemma_expect_fails(s, p, "Low\n"@, 'M');
            assert(spec_expect(s, p, "Medium\n"@) == Some(p + 7));
        },
        Priority::High => {
            lemma_expect_fails(s, p, "Low\n"@, 'H');
            lemma_expect_fails(s, p, "Medium\n"@, 'H');
            assert(spec_expect(s, p, "High\n"@) == Some(p + 5));
        },
        Priority::Urgent => {
            lemma_expect_fails(s, p, "Low\n"@, 'U');
            lemma_expect_fails(s, p, "Medium\n"@, 'U');
            lemma_expect_fails(s, p, "High\n"@, 'U');
            assert(spec_expect(s, p, "Urgent\n"@) == Some(p + 7));
        },
    }
}

pub open spec fn render_status(v: Status) -> Seq<char> {
    match v {
        Status::Todo => "Todo\n"@,
        Status::InProgress => "InProgress\n"@,
        Status::Done => "Done\n"@,
    }
}

pub open spec fn ps_status(s: Seq<char>, p: int) -> Option<(Status, int)> {
    match spec_expect(s, p, "Todo\n"@) {
        Some(e) => Some((Status::Todo, e)),
        None => match spec_expect(s, p, "InProgress\n"@) {
            Some(e) => Some((Status::InProgress, e)),
            None => match spec_expect(s, p, "Done\n"@) {
                Some(e) => Some((Status::Done, e)),
                None => None,
            },
        },
    }
}

pub fn push_status(out: &mut Vec<char>, v: &Status)
    ensures
        final(out)@ == old(out)@ + render_status(*v),
{
    match v {
        Status::Todo => push_str_chars(out, "Todo\n"),
        Status::InProgress => push_str_chars(out, "InProgress\n"),
        Status::Done => push_str_chars(out, "Done\n"),
    }
}

pub fn parse_status(s: &Vec<char>, p: usize) -> (r: Option<(Status, usize)>)
    requires
        p <= s@.len(),
    ensures
        r matches Some(v) ==> ps_status(s@, p as int) == Some((v.0, v.1 as int)) && v.1
            <= s@.len(),
        r is None ==> ps_status(s@, p as int) is None,
{
    match expect_lit(s, p, "Todo\n") {
        Some(e) => Some((Status::Todo, e)),
        None => match expect_lit(s, p, "InProgress\n") {
            Some(e) => Some((Status::InProgress, e)),
            None => match expect_lit(s, p, "Done\n") {
                Some(e) => Some((Status::Done, e)),
                None => None,
            },
        },
    }
}

pub proof fn rt_status(s: Seq<char>, p: int, v: Status)
    requires
        0 <= p,
        p + render_status(v).len() <= s.len(),
        s.subrange(p, p + render_status(v).len()) == render_status(v),
    ensures
        ps_status(s, p) == Some((v, p + render_status(v).len())),
{
    reveal_strlit("Todo\n");
    reveal_strlit("InProgress\n");
    reveal_strlit("Done\n");
    lemma_first_char(s, p, render_status(v));
    match v {
        Status::Todo => {
            assert(spec_expect(s, p, "Todo\n"@) == Some(p + 5));
        },
        Status::InProgress => {
            lemma_expect_fails(s, p, "Todo\n"@, 'I');
            assert(spec_expect(s, p, "InProgress\n"@) == Some(p + 11));
        },
        Status::Done => {
            lemma_expect_fails(s, p, "Todo\n"@, 'D');
            lemma_expect_fails(s, p, "InProgress\n"@, 'D');
            assert(spec_expect(s, p, "Done\n"@) == Some(p + 5));
        },
    }
}

// ---------------------------------------------------------------------
// Time entries
// ---------------------------------------------------------------------

/// What rendering needs of an entry's fields; both open and closed
/// well-formed entries satisfy it.
pub open spec fn entry_serializable(e: TimeEntry) -> bool {
    &&& e.start_time.wf()
    &&& (e.end_time matches Some(x) ==> x.wf())
    &&& (e.duration_seconds matches Some(d) ==> d > i64::MIN)
}

pub open spec fn render_entry(e: TimeEntry) -> Seq<char> {
    "start "@ + (render_ts(e.start_time) + ("end "@ + (render_opt_ts(e.end_time) + ("duration "@
        + render_opt_i64(e.duration_seconds)))))
}

pub open spec fn ps_entry(s: Seq<char>, p: int) -> Option<(TimeEntry, int)> {
    match spec_expect(s, p, "start "@) {
        None => None,
        Some(p1) => match ps_ts(s, p1) {
            None => None,
            Some((start, p2)) => match spec_expect(s, p2, "end "@) {
                None => None,
                Some(p3) => match ps_opt_ts(s, p3) {
                    None => None,
                    Some((end, p4)) => match spec_expect(s, p4, "duration "@) {
                        None => None,
                        Some(p5) => match ps_opt_i64(s, p5) {
                            None => None,
                            Some((dur, e)) => Some(
                                (
                                    TimeEntry {
                                        start_time: start,
                                        end_time: end,
                                        duration_seconds: dur,
                                    },
                                    e,
                                ),
                            ),
                        },
                    },
                },
            },
        },
    }
}

pub fn push_entry(out: &mut Vec<char>, e: &TimeEntry)
    requires
        entry_serializable(*e),
    ensures
        final(out)@ == old(out)@ + render_entry(*e),
{
    push_str_chars(out, "start ");
    push_ts(out, &e.start_time);
    push_str_chars(out, "end ");
    push_opt_ts(out, &e.end_time);
    push_str_chars(out, "duration ");
    push_opt_i64(out, &e.duration_seconds);
    assert(out@ =~= old(out)@ + render_entry(*e));
}

pub fn parse_entry(s: &Vec<char>, p: usize) -> (r: Option<(TimeEntry, usize)>)
    requires
        p <= s@.len(),
    ensures
        r matches Some(v) ==> ps_entry(s@, p as int) == Some((v.0, v.1 as int)) && v.1
            <= s@.len(),
        r is None ==> ps_entry(s@, p as int) is None,
{
    let p1 = match expect_lit(s, p, "start ") {
        None => {
            return None;
        },
        Some(v) => v,
    };
    let (start, p2) = match parse_ts(s, p1) {
        None => {
            return None;
        },
        Some(v) => v,
    };
    let p3 = match expect_lit(s, p2, "end ") {
        None => {
            return None;
        },
        Some(v) => v,
    };
    let (end, p4) = match parse_opt_ts(s, p3) {
        None => {
            return None;
        },
        Some(v) => v,
    };
    let p5 = match expect_lit(s, p4, "duration ") {
        None => {
            return None;
        },
        Some(v) => v,
    };
    let (dur, e) = match parse_opt_i64(s, p5) {
        None => {
            return None;
        },
        Some(v) => v,
    };
    Some((TimeEntry { start_time: start, end_time: end, duration_seconds: dur }, e))
}

#[verifier::rlimit(60)]
pub proof fn rt_entry(s: Seq<char>, p: int, e: TimeEntry)
    requires
        0 <= p,
        entry_serializable(e),
        p + render_entry(e).len() <= s.len(),
        s.subrange(p, p + render_entry(e).len()) == render_entry(e),
    ensures
        ps_entry(s, p) == Some((e, p + render_entry(e).len())),
{
    let a1 = "start "@;
    let a2 = render_ts(e.start_time);
    let a3 = "end "@;
    let a4 = render_opt_ts(e.end_time);
    let a5 = "duration "@;
    let a6 = render_opt_i64(e.duration_seconds);
    let p1 = p + a1.len();
    let p2 = p1 + a2.len();
    let p3 = p2 + a3.len();
    let p4 = p3 + a4.len();
    let p5 = p4 + a5.len();
    lemma_split(s, p, a1, a2 + (a3 + (a4 + (a5 + a6))));
    lemma_split(s, p1, a2, a3 + (a4 + (a5 + a6)));
    lemma_split(s, p2, a3, a4 + (a5 + a6));
    lemma_split(s, p3, a4, a5 + a6);
    lemma_split(s, p4, a5, a6);
    rt_ts(s, p1, e.start_time);
    rt_opt_ts(s, p3, e.end_time);
    rt_opt_i64(s, p5, e.duration_seconds);
}

pub open spec fn render_entries(es: Seq<TimeEntry>) -> Seq<char>
    decreases es.len(),
{
    if es.len() == 0 {
        Seq::empty()
    } else {
        render_entry(es[0]) + render_entries(es.subrange(1, es.len() as int))
    }
}

pub open spec fn ps_entries(s: Seq<char>, p: int, n: nat) -> Option<(Seq<TimeEntry>, int)>
    decreases n,
{
    if n == 0 {
        Some((Seq::empty(), p))
    } else {
        match ps_entry(s, p) {
            None => None,
            Some((x, p1)) => match ps_entries(s, p1, (n - 1) as nat) {
                None => None,
                Some((rest, e)) => Some((seq![x] + rest, e)),
            },
        }
    }
}

pub proof fn lemma_render_entries_push(es: Seq<TimeEntry>, x: TimeEntry)
    ensures
        render_entries(es.push(x)) == render_entries(es) + render_entry(x),
    decreases es.len(),
{
    let all = es.push(x);
    if es.len() == 0 {
        reveal_with_fuel(render_entries, 3);
        assert(all.subrange(1, all.len() as int) =~= Seq::<TimeEntry>::empty());
        assert(all[0] == x);
        assert(render_entries(es) + render_entry(x) =~= render_entry(x));
        assert(render_entries(all) =~= render_entry(x) + Seq::<char>::empty());
    } else {
        assert(all.subrange(1, all.len() as int) =~= es.subrange(1, es.len() as int).push(x));
        lemma_render_entries_push(es.subrange(1, es.len() as int), x);
        assert(all[0] == es[0]);
        assert(render_entries(all) =~= render_entries(es) + render_entry(x));
    }
}

pub fn push_entries(out: &mut Vec<char>, es: &Vec<TimeEntry>)
    requires
        forall|i: int| 0 <= i < es@.len() ==> entry_serializable(#[trigger] es@[i]),
    ensures
        final(out)@ == old(out)@ + render_entries(es@),
{
    let n = es.len();
    let mut i: usize = 0;
    while i < n
        invariant
            0 <= i <= n,
            n == es@.len(),
            forall|j: int| 0 <= j < n ==> entry_serializable(#[trigger] es@[j]),
            out@ == old(out)@ + render_entries(es@.take(i as int)),
        decreases n - i,
    {
        push_entry(out, &es[i]);
        proof {
            lemma_render_entries_push(es@.take(i as int), es@[i as int]);
            assert(es@.take(i + 1) =~= es@.take(i as int).push(es@[i as int]));
        }
        i = i + 1;
    }
    assert(es@.take(n as int) =~= es@);
}

pub fn parse_entries(s: &Vec<char>, p: usize, n: u64) -> (r: Option<(Vec<TimeEntry>, usize)>)
    requires
        p <= s@.len(),
    ensures
        r matches Some(v) ==> ps_entries(s@, p as int, n as nat) == Some((v.0@, v.1 as int))
            && v.1 <= s@.len(),
        r is None ==> ps_entries(s@, p as int, n as nat) is None,
{
    let mut out: Vec<TimeEntry> = Vec::new();
    let mut cur: usize = p;
    let mut k: u64 = 0;
    while k < n
        invariant
            0 <= k <= n,
            cur <= s@.len(),
            ({
                let full = ps_entries(s@, p as int, n as nat);
                match ps_entries(s@, cur as int, (n - k) as nat) {
                    None => full is None,
                    Some((rest, e)) => full == Some((out@ + rest, e)),
                }
            }),
        decreases n - k,
    {
        let ghost pre = out@;
        match parse_entry(s, cur) {
            None => {
                return None;
            },
            Some((x, p1)) => {
                out.push(x);
                cur = p1;
                k = k + 1;
                proof {
                    let rem = ps_entries(s@, cur as int, (n - k) as nat);
                    if rem is Some {
                        let rest = rem->Some_0.0;
                        assert(pre + (seq![x] + rest) =~= out@ + rest);
                    }
                }
            },
        }
    }
    assert(ps_entries(s@, cur as int, 0) == Some((Seq::<TimeEntry>::empty(), cur as int)));
    assert(out@ + Seq::<TimeEntry>::empty() =~= out@);
    Some((out, cur))
}

#[verifier::rlimit(60)]
pub proof fn rt_entries(s: Seq<char>, p: int, es: Seq<TimeEntry>)
    requires
        0 <= p,
        forall|i: int| 0 <= i < es.len() ==> entry_serializable(#[trigger] es[i]),
        p + render_entries(es).len() <= s.len(),
        s.subrange(p, p + render_entries(es).len()) == render_entries(es),
    ensures
        ps_entries(s, p, es.len()) == Some((es, p + render_entries(es).len())),
    decreases es.len(),
{
    if es.len() == 0 {
        assert(es =~= Seq::<TimeEntry>::empty());
    } else {
        let rest = es.subrange(1, es.len() as int);
        lemma_split(s, p, render_entry(es[0]), render_entries(rest));
        rt_entry(s, p, es[0]);
        assert(forall|i: int| 0 <= i < rest.len() ==> entry_serializable(#[trigger] rest[i]));
        rt_entries(s, p + render_entry(es[0]).len(), rest);
        assert(seq![es[0]] + rest =~= es);
    }
}

// ---------------------------------------------------------------------
// Categories
// ---------------------------------------------------------------------

pub open spec fn cat_bounded(c: CategoryView) -> bool {
    &&& c.name.len() <= u64::MAX
    &&& c.color.len() <= u64::MAX
    &&& c.emoji.len() <= u64::MAX
}

pub open spec fn render_category(c: CategoryView) -> Seq<char> {
    "name "@ + (render_text(c.name) + ("color "@ + (render_text(c.color) + ("emoji "@
        + render_text(c.emoji)))))
}

pub open spec fn ps_category(s: Seq<char>, p: int) -> Option<(CategoryView, int)> {
    match spec_expect(s, p, "name "@) {
        None => None,
        Some(p1) => match ps_text(s, p1) {
            None => None,
            Some((name, p2)) => match spec_expect(s, p2, "color "@) {
                None => None,
                Some(p3) => match ps_text(s, p3) {
                    None => None,
                    Some((color, p4)) => match spec_expect(s, p4, "emoji "@) {
                        None => None,
                        Some(p5) => match ps_text(s, p5) {
                            None => None,
                            Some((emoji, e)) => Some((CategoryView { name, color, emoji }, e)),
                        },
                    },
                },
            },
        },
    }
}

pub fn push_category(out: &mut Vec<char>, c: &Category)
    ensures
        final(out)@ == old(out)@ + render_category(c@),
{
    push_str_chars(out, "name ");
    push_text(out, &c.name);
    push_str_chars(out, "color ");
    push_text(out, &c.color);
    push_str_chars(out, "emoji ");
    push_text(out, &c.emoji);
    assert(out@ =~= old(out)@ + render_category(c@));
}

pub fn parse_category(s: &Vec<char>, p: usize) -> (r: Option<(Category, usize)>)
    requires
        p <= s@.len(),
    ensures
        r matches Some(v) ==> ps_category(s@, p as int) == Some((v.0@, v.1 as int)) && v.1
            <= s@.len(),
        r is None ==> ps_category(s@, p as int) is None,
{
    let p1 = match expect_lit(s, p, "name ") {
        None => {
            return None;
        },
        Some(v) => v,
    };
    let (name, p2) = match parse_text(s, p1) {
        None => {
            return None;
        },
        Some(v) => v,
    };
    let p3 = match expect_lit(s, p2, "color ") {
        None => {
            return None;
        },
        Some(v) => v,
    };
    let (color, p4) = match parse_text(s, p3) {
        None => {
            return None;
        },
        Some(v) => v,
    };
    let p5 = match expect_lit(s, p4, "emoji ") {
        None => {
            return None;
        },
        Some(v) => v,
    };
    let (emoji, e) = match parse_text(s, p5) {
        None => {
            return None;
        },
        Some(v) => v,
    };
    Some((Category { name, color, emoji }, e))
}

#[verifier::rlimit(60)]
pub proof fn rt_category(s: Seq<char>, p: int, c: CategoryView)
    requires
        0 <= p,
        cat_bounded(c),
        p + render_category(c).len() <= s.len(),
        s.subrange(p, p + render_category(c).len()) == render_category(c),
    ensures
        ps_category(s, p) == Some((c, p + render_category(c).len())),
{
    let a1 = "name "@;
    let a2 = render_text(c.name);
    let a3 = "color "@;
    let a4 = render_text(c.color);
    let a5 = "emoji "@;
    let a6 = render_text(c.emoji);
    let p1 = p + a1.len();
    let p2 = p1 + a2.len();
    let p3 = p2 + a3.len();
    let p4 = p3 + a4.len();
    let p5 = p4 + a5.len();
    lemma_split(s, p, a1, a2 + (a3 + (a4 + (a5 + a6))));
    lemma_split(s, p1, a2, a3 + (a4 + (a5 + a6)));
    lemma_split(s, p2, a3, a4 + (a5 + a6));
    lemma_split(s, p3, a4, a5 + a6);
    lemma_split(s, p4, a5, a6);
    rt_text(s, p1, c.name);
    rt_text(s, p3, c.color);
    rt_text(s, p5, c.emoji);
    assert(ps_category(s, p)->Some_0.0 =~= c);
}

pub open spec fn render_cats(cs: Seq<CategoryView>) -> Seq<char>
    decreases cs.len(),
{
    if cs.len() == 0 {
        Seq::empty()
    } else {
        render_category(cs[0]) + render_cats(cs.subrange(1, cs.len() as int))
    }
}

pub open spec fn ps_cats(s: Seq<char>, p: int, n: nat) -> Option<(Seq<CategoryView>, int)>
    decreases n,
{
    if n == 0 {
        Some((Seq::empty(), p))
    } else {
        match ps_category(s, p) {
            None => None,
            Some((x, p1)) => match ps_cats(s, p1, (n - 1) as nat) {
                None => None,
                Some((rest, e)) => Some((seq![x] + rest, e)),
            },
        }
    }
}

pub proof fn lemma_render_cats_push(cs: Seq<CategoryView>, x: CategoryView)
    ensures
        render_cats(cs.push(x)) == render_cats(cs) + render_category(x),
    decreases cs.len(),
{
    let all = cs.push(x);
    if cs.len() == 0 {
        reveal_with_fuel(render_cats, 3);
        assert(all.subrange(1, all.len() as int) =~= Seq::<CategoryView>::empty());
        assert(all[0] == x);
        assert(render_cats(cs) + render_category(x) =~= render_category(x));
        assert(render_cats(all) =~= render_category(x) + Seq::<char>::empty());
    } else {
        assert(all.subrange(1, all.len() as int) =~= cs.subrange(1, cs.len() as int).push(x));
        lemma_render_cats_push(cs.subrange(1, cs.len() as int), x);
        assert(all[0] == cs[0]);
        assert(render_cats(all) =~= render_cats(cs) + render_category(x));
    }
}

pub fn push_cats(out: &mut Vec<char>, cs: &Vec<Category>)
    ensures
        final(out)@ == old(out)@ + render_cats(crate::model::cats_view(cs@)),
{
    let ghost cv = crate::model::cats_view(cs@);
    let n = cs.len();
    let mut i: usize = 0;
    while i < n
        invariant
            0 <= i <= n,
            n == cs@.len(),
            cv == crate::model::cats_view(cs@),
            out@ == old(out)@ + render_cats(cv.take(i as int)),
        decreases n - i,
    {
        push_category(out, &cs[i]);
        proof {
            lemma_render_cats_push(cv.take(i as int), cv[i as int]);
            assert(cv.take(i + 1) =~= cv.take(i as int).push(cv[i as int]));
            assert(cv[i as int] == cs@[i as int]@);
        }
        i = i + 1;
    }
    assert(cv.take(n as int) =~= cv);
}

pub fn parse_cats(s: &Vec<char>, p: usize, n: u64) -> (r: Option<(Vec<Category>, usize)>)
    requires
        p <= s@.len(),
    ensures
        r matches Some(v) ==> ps_cats(s@, p as int, n as nat) == Some(
            (crate::model::cats_view(v.0@), v.1 as int),
        ) && v.1 <= s@.len(),
        r is None ==> ps_cats(s@, p as int, n as nat) is None,
{
    let mut out: Vec<Category> = Vec::new();
    let mut cur: usize = p;
    let mut k: u64 = 0;
    while k < n
        invariant
            0 <= k <= n,
            cur <= s@.len(),
            ({
                let full = ps_cats(s@, p as int, n as nat);
                match ps_cats(s@, cur as int, (n - k) as nat) {
                    None => full is None,
                    Some((rest, e)) => full == Some((crate::model::cats_view(out@) + rest, e)),
                }
            }),
        decreases n - k,
    {
        let ghost pre = crate::model::cats_view(out@);
        match parse_category(s, cur) {
            None => {
                return None;
            },
            Some((x, p1)) => {
                let ghost xv = x@;
                out.push(x);
                cur = p1;
                k = k + 1;
                proof {
                    assert(crate::model::cats_view(out@) =~= pre.push(xv));
                    let rem = ps_cats(s@, cur as int, (n - k) as nat);
                    if rem is Some {
                        let rest = rem->Some_0.0;
                        assert(pre + (seq![xv] + rest) =~= pre.push(xv) + rest);
                    }
                }
            },
        }
    }
    assert(ps_cats(s@, cur as int, 0) == Some((Seq::<CategoryView>::empty(), cur as int)));
    assert(crate::model::cats_view(out@) + Seq::<CategoryView>::empty() =~= crate::model::cats_view(
        out@,
    ));
    Some((out, cur))
}

#[verifier::rlimit(60)]
// ---------------------------------------------------------------------
// The open-entry slot
// ---------------------------------------------------------------------

pub open spec fn render_opt_entry(o: Option<TimeEntry>) -> Seq<char> {
    match o {
        None => "none\n"@,
        Some(e) => "some "@ + render_entry(e),
    }
}

pub open spec fn ps_opt_entry(s: Seq<char>, p: int) -> Option<(Option<TimeEntry>, int)> {
    match spec_expect(s, p, "none\n"@) {
        Some(e) => Some((None, e)),
        None => match spec_expect(s, p, "some "@) {
            None => None,
            Some(p1) => match ps_entry(s, p1) {
                None => None,
                Some((x, e)) => Some((Some(x), e)),
            },
        },
    }
}

pub fn push_opt_entry(out: &mut Vec<char>, o: &Option<TimeEntry>)
    requires
        o matches Some(x) ==> entry_serializable(*x),
    ensures
        final(out)@ == old(out)@ + render_opt_entry(*o),
{
    match o {
        None => {
            push_str_chars(out, "none\n");
        },
        Some(x) => {
            push_str_chars(out, "some ");
            push_entry(out, x);
            assert(out@ =~= old(out)@ + render_opt_entry(*o));
        },
    }
}

pub fn parse_opt_entry(s: &Vec<char>, p: usize) -> (r: Option<(Option<TimeEntry>, usize)>)
    requires
        p <= s@.len(),
    ensures
        r matches Some(v) ==> ps_opt_entry(s@, p as int) == Some((v.0, v.1 as int)) && v.1
            <= s@.len(),
        r is None ==> ps_opt_entry(s@, p as int) is None,
{
    match expect_lit(s, p, "none\n") {
        Some(e) => Some((None, e)),
        None => {
            let p1 = match expect_lit(s, p, "some ") {
                None => {
                    return None;
                },
                Some(v) => v,
            };
            match parse_entry(s, p1) {
                None => None,
                Some((x, e)) => Some((Some(x), e)),
            }
        },
    }
}

pub proof fn rt_opt_entry(s: Seq<char>, p: int, o: Option<TimeEntry>)
    requires
        0 <= p,
        o matches Some(x) ==> entry_serializable(x),
        p + render_opt_entry(o).len() <= s.len(),
        s.subrange(p, p + render_opt_entry(o).len()) == render_opt_entry(o),
    ensures
        ps_opt_entry(s, p) == Some((o, p + render_opt_entry(o).len())),
{
    reveal_strlit("none\n");
    reveal_strlit("some ");
    match o {
        None => {
            assert(spec_expect(s, p, "none\n"@) == Some(p + 5));
        },
        Some(x) => {
            lemma_first_char(s, p, render_opt_entry(o));
            assert(render_opt_entry(o)[0] == 's');
            lemma_expect_fails(s, p, "none\n"@, 's');
            lemma_split(s, p, "some "@, render_entry(x));
            rt_entry(s, p + 5, x);
        },
    }
}

pub proof fn rt_cats(s: Seq<char>, p: int, cs: Seq<CategoryView>)
    requires
        0 <= p,
        forall|i: int| 0 <= i < cs.len() ==> cat_bounded(#[trigger] cs[i]),
        p + render_cats(cs).len() <= s.len(),
        s.subrange(p, p + render_cats(cs).len()) == render_cats(cs),
    ensures
        ps_cats(s, p, cs.len()) == Some((cs, p + render_cats(cs).len())),
    decreases cs.len(),
{
    if cs.len() == 0 {
        assert(cs =~= Seq::<CategoryView>::empty());
    } else {
        let rest = cs.subrange(1, cs.len() as int);
        lemma_split(s, p, render_category(cs[0]), render_cats(rest));
        rt_category(s, p, cs[0]);
        assert(forall|i: int| 0 <= i < rest.len() ==> cat_bounded(#[trigger] rest[i]));
        rt_cats(s, p + render_category(cs[0]).len(), rest);
        assert(seq![cs[0]] + rest =~= cs);
    }
}

// ---------------------------------------------------------------------
// Tasks
// ---------------------------------------------------------------------

pub open spec fn task_bounded(t: TaskView) -> bool {
    &&& t.title.len() <= u64::MAX
    &&& (t.description matches Some(d) ==> d.len() <= u64::MAX)
    &&& t.categories.len() <= u64::MAX
    &&& (forall|i: int| 0 <= i < t.categories.len() ==> cat_bounded(#[trigger] t.categories[i]))
    &&& t.time_entries.len() <= u64::MAX
}

pub open spec fn tasks_bounded(ts: Seq<TaskView>) -> bool {
    &&& ts.len() <= u64::MAX
    &&& (forall|i: int| 0 <= i < ts.len() ==> task_bounded(#[trigger] ts[i]))
}

#[verifier::opaque]
pub open spec fn unit_id(t: TaskView) -> Seq<char> {
    "id "@ + num_nl(t.id as nat)
}

#[verifier::opaque]
pub open spec fn unit_title(t: TaskView) -> Seq<char> {
    "title "@ + render_text(t.title)
}

#[verifier::opaque]
pub open spec fn unit_desc(t: TaskView) -> Seq<char> {
    "description "@ + render_opt_text(t.description)
}

#[verifier::opaque]
pub open spec fn unit_prio(t: TaskView) -> Seq<char> {
    "priority "@ + render_priority(t.priority)
}

#[verifier::opaque]
pub open spec fn unit_status(t: TaskView) -> Seq<char> {
    "status "@ + render_status(t.status)
}

#[verifier::opaque]
pub open spec fn unit_due(t: TaskView) -> Seq<char> {
    "due "@ + render_opt_ts(t.due_date)
}

#[verifier::opaque]
pub open spec fn unit_created(t: TaskView) -> Seq<char> {
    "created "@ + render_ts(t.created_at)
}

#[verifier::opaque]
pub open spec fn unit_cats(t: TaskView) -> Seq<char> {
    "categories "@ + (num_nl(t.categories.len()) + render_cats(t.categories))
}

#[verifier::opaque]
pub open spec fn unit_entries(t: TaskView) -> Seq<char> {
    "entries "@ + (num_nl(t.time_entries.len()) + render_entries(t.time_entries))
}

#[verifier::opaque]
pub open spec fn unit_current(t: TaskView) -> Seq<char> {
    "current "@ + render_opt_entry(t.current_time_entry)
}

#[verifier::opaque]
pub open spec fn unit_notified(t: TaskView) -> Seq<char> {
    "notified "@ + render_opt_ts(t.last_notification)
}

/// A task: one named field per line, in a fixed order.
#[verifier::opaque]
pub open spec fn render_task(t: TaskView) -> Seq<char> {
    unit_id(t) + (unit_title(t) + (unit_desc(t) + (unit_prio(t) + (unit_status(t) + (unit_due(t)
        + (unit_created(t) + (unit_cats(t) + (unit_entries(t) + (unit_current(t) + unit_notified(
        t,
    ))))))))))
}

#[verifier::opaque]
pub open spec fn ps_task(s: Seq<char>, p: int) -> Option<(TaskView, int)> {
    match spec_expect(s, p, "id "@) {
        None => None,
        Some(q1) => match spec_parse_decimal(s, q1, '\n') {
            None => None,
            Some((id, q2)) => match spec_expect(s, q2, "title "@) {
                None => None,
                Some(q3) => match ps_text(s, q3) {
                    None => None,
                    Some((title, q4)) => match spec_expect(s, q4, "description "@) {
                        None => None,
                        Some(q5) => match ps_opt_text(s, q5) {
                            None => None,
                            Some((description, q6)) => match spec_expect(s, q6, "priority "@) {
                                None => None,
                                Some(q7) => match ps_priority(s, q7) {
                                    None => None,
                                    Some((priority, q8)) => ps_task_rest(
                                        s,
                                        q8,
                                        id,
                                        title,
                                        description,
                                        priority,
                                    ),
                                },
                            },
                        },
                    },
                },
            },
        },
    }
}

#[verifier::opaque]
pub open spec fn ps_task_rest(
    s: Seq<char>,
    p: int,
    id: u64,
    title: Seq<char>,
    description: Option<Seq<char>>,
    priority: Priority,
) -> Option<(TaskView, int)> {
    match spec_expect(s, p, "status "@) {
        None => None,
        Some(q1) => match ps_status(s, q1) {
            None => None,
            Some((status, q2)) => match spec_expect(s, q2, "due "@) {
                None => None,
                Some(q3) => match ps_opt_ts(s, q3) {
                    None => None,
                    Some((due_date, q4)) => match spec_expect(s, q4, "created "@) {
                        None => None,
                        Some(q5) => match ps_ts(s, q5) {
                            None => None,
                            Some((created_at, q6)) => match ps_task_tail(s, q6) {
                                None => None,
                                Some(((categories, time_entries, current, notified), e)) => Some(
                                    (
                                        TaskView {
                                            id,
                                            title,
                                            description,
                                            priority,
                                            status,
                                            due_date,
                                            created_at,
                                            categories,
                                            time_entries,
                                            current_time_entry: current,
                                            last_notification: notified,
                                        },
                                        e,
                                    ),
                                ),
                            },
                        },
                    },
                },
            },
        },
    }
}

#[verifier::opaque]
pub open spec fn ps_task_tail(s: Seq<char>, p: int) -> Option<
    ((Seq<CategoryView>, Seq<TimeEntry>, Option<TimeEntry>, Option<Timestamp>), int),
> {
    match spec_expect(s, p, "categories "@) {
        None => None,
        Some(q1) => match spec_parse_decimal(s, q1, '\n') {
            None => None,
            Some((nc, q2)) => match ps_cats(s, q2, nc as nat) {
                None => None,
                Some((categories, q3)) => match spec_expect(s, q3, "entries "@) {
                    None => None,
                    Some(q4) => match spec_parse_decimal(s, q4, '\n') {
                        None => None,
                        Some((ne, q5)) => match ps_entries(s, q5, ne as nat) {
                            None => None,
                            Some((time_entries, q6)) => match spec_expect(s, q6, "current "@) {
                                None => None,
                                Some(q7) => match ps_opt_entry(s, q7) {
                                    None => None,
                                    Some((current, q8)) => match spec_expect(s, q8, "notified "@) {
                                        None => None,
                                        Some(q9) => match ps_opt_ts(s, q9) {
                                            None => None,
                                            Some((notified, e)) => Some(
                                                (
                                                    (categories, time_entries, current, notified),
                                                    e,
                                                ),
                                            ),
                                        },
                                    },
                                },
                            },
                        },
                    },
                },
            },
        },
    }
}

/// Appending eleven pieces one after another is appending their
/// right-nested concatenation.
pub proof fn lemma_assoc11(
    o: Seq<char>,
    a1: Seq<char>,
    a2: Seq<char>,
    a3: Seq<char>,
    a4: Seq<char>,
    a5: Seq<char>,
    a6: Seq<char>,
    a7: Seq<char>,
    a8: Seq<char>,
    a9: Seq<char>,
    a10: Seq<char>,
    a11: Seq<char>,
)
    ensures
        o + a1 + a2 + a3 + a4 + a5 + a6 + a7 + a8 + a9 + a10 + a11 == o + (a1 + (a2 + (a3 + (a4
            + (a5 + (a6 + (a7 + (a8 + (a9 + (a10 + a11)))))))))),
{
    assert(o + a1 + a2 + a3 + a4 + a5 + a6 + a7 + a8 + a9 + a10 + a11 =~= o + (a1 + (a2 + (a3
        + (a4 + (a5 + (a6 + (a7 + (a8 + (a9 + (a10 + a11)))))))))));
}

/// Everything rendering needs of a task, well-formedness included.
pub proof fn lemma_task_serializable(t: TaskView)
    requires
        crate::model::task_wf(t),
    ensures
        t.created_at.wf(),
        t.due_date matches Some(d) ==> d.wf(),
        t.last_notification matches Some(n) ==> n.wf(),
        t.current_time_entry matches Some(e) ==> entry_serializable(e),
        forall|i: int| 0 <= i < t.time_entries.len() ==> entry_serializable(#[trigger] t.time_entries[i]),
{
    assert forall|i: int|
        0 <= i < t.time_entries.len() implies entry_serializable(#[trigger] t.time_entries[i]) by {
        let e = t.time_entries[i];
        assert(entry_closed_wf(e));
        e.start_time.lemma_epoch_bounds();
        let end = e.end_time->Some_0;
        end.lemma_epoch_bounds();
    }
}


// Each unit of a task, rendered by its own small routine and parsed
// back by its own small lemma, so that no single proof carries the
// whole record.

fn push_unit_id(out: &mut Vec<char>, t: &Task)
    ensures
        final(out)@ == old(out)@ + unit_id(t@),
{
    push_str_chars(out, "id ");
    push_decimal(out, t.id as u128);
    out.push('\n');
    proof {
        reveal(unit_id);
    }
    assert(out@ =~= old(out)@ + unit_id(t@));
}

fn push_unit_title(out: &mut Vec<char>, t: &Task)
    ensures
        final(out)@ == old(out)@ + unit_title(t@),
{
    push_str_chars(out, "title ");
    push_text(out, &t.title);
    proof {
        reveal(unit_title);
    }
    assert(out@ =~= old(out)@ + unit_title(t@));
}

fn push_unit_desc(out: &mut Vec<char>, t: &Task)
    ensures
        final(out)@ == old(out)@ + unit_desc(t@),
{
    push_str_chars(out, "description ");
    push_opt_text(out, &t.description);
    proof {
        reveal(unit_desc);
    }
    assert(out@ =~= old(out)@ + unit_desc(t@));
}

fn push_unit_prio(out: &mut Vec<char>, t: &Task)
    ensures
        final(out)@ == old(out)@ + unit_prio(t@),
{
    push_str_chars(out, "priority ");
    push_priority(out, &t.priority);
    proof {
        reveal(unit_prio);
    }
    assert(out@ =~= old(out)@ + unit_prio(t@));
}

fn push_unit_status(out: &mut Vec<char>, t: &Task)
    ensures
        final(out)@ == old(out)@ + unit_status(t@),
{
    push_str_chars(out, "status ");
    push_status(out, &t.status);
    proof {
        reveal(unit_status);
    }
    assert(out@ =~= old(out)@ + unit_status(t@));
}

fn push_unit_due(out: &mut Vec<char>, t: &Task)
    requires
        t.due_date matches Some(d) ==> d.wf(),
    ensures
        final(out)@ == old(out)@ + unit_due(t@),
{
    push_str_chars(out, "due ");
    push_opt_ts(out, &t.due_date);
    proof {
        reveal(unit_due);
    }
    assert(out@ =~= old(out)@ + unit_due(t@));
}

fn push_unit_created(out: &mut Vec<char>, t: &Task)
    requires
        t.created_at.wf(),
    ensures
        final(out)@ == old(out)@ + unit_created(t@),
{
    push_str_chars(out, "created ");
    push_ts(out, &t.created_at);
    proof {
        reveal(unit_created);
    }
    assert(out@ =~= old(out)@ + unit_created(t@));
}

fn push_unit_cats(out: &mut Vec<char>, t: &Task)
    ensures
        final(out)@ == old(out)@ + unit_cats(t@),
{
    push_str_chars(out, "categories ");
    push_decimal(out, t.categories.len() as u128);
    out.push('\n');
    let ghost mid = out@;
    push_cats(out, &t.categories);
    proof {
        reveal(unit_cats);
    }
    assert(out@ =~= old(out)@ + unit_cats(t@));
}

fn push_unit_entries(out: &mut Vec<char>, t: &Task)
    requires
        forall|i: int|
            0 <= i < t.time_entries@.len() ==> entry_serializable(#[trigger] t.time_entries@[i]),
    ensures
        final(out)@ == old(out)@ + unit_entries(t@),
{
    push_str_chars(out, "entries ");
    push_decimal(out, t.time_entries.len() as u128);
    out.push('\n');
    let ghost mid = out@;
    push_entries(out, &t.time_entries);
    proof {
        reveal(unit_entries);
    }
    assert(out@ =~= old(out)@ + unit_entries(t@));
}

fn push_unit_current(out: &mut Vec<char>, t: &Task)
    requires
        t.current_time_entry matches Some(x) ==> entry_serializable(x),
    ensures
        final(out)@ == old(out)@ + unit_current(t@),
{
    push_str_chars(out, "current ");
    push_opt_entry(out, &t.current_time_entry);
    proof {
        reveal(unit_current);
    }
    assert(out@ =~= old(out)@ + unit_current(t@));
}

fn push_unit_notified(out: &mut Vec<char>, t: &Task)
    requires
        t.last_notification matches Some(n) ==> n.wf(),
    ensures
        final(out)@ == old(out)@ + unit_notified(t@),
{
    push_str_chars(out, "notified ");
    push_opt_ts(out, &t.last_notification);
    proof {
        reveal(unit_notified);
    }
    assert(out@ =~= old(out)@ + unit_notified(t@));
}

pub fn push_task(out: &mut Vec<char>, t: &Task)
    requires
        crate::model::task_wf(t@),
    ensures
        final(out)@ == old(out)@ + render_task(t@),
{
    proof {
        lemma_task_serializable(t@);
        assert(forall|i: int|
            0 <= i < t@.time_entries.len() ==> t.time_entries@[i] == #[trigger] t@.time_entries[i]);
    }
    let ghost base = out@;
    push_unit_id(out, t);
    push_unit_title(out, t);
    push_unit_desc(out, t);
    push_unit_prio(out, t);
    push_unit_status(out, t);
    push_unit_due(out, t);
    push_unit_created(out, t);
    push_unit_cats(out, t);
    push_unit_entries(out, t);
    push_unit_current(out, t);
    push_unit_notified(out, t);
    proof {
        reveal(render_task);
        lemma_assoc11(
            base,
            unit_id(t@),
            unit_title(t@),
            unit_desc(t@),
            unit_prio(t@),
            unit_status(t@),
            unit_due(t@),
            unit_created(t@),
            unit_cats(t@),
            unit_entries(t@),
            unit_current(t@),
            unit_notified(t@),
        );
    }
}

#[verifier::rlimit(100)]
pub fn parse_task(s: &Vec<char>, p: usize) -> (r: Option<(Task, usize)>)
    requires
        p <= s@.len(),
    ensures
        r matches Some(v) ==> ps_task(s@, p as int) == Some((v.0@, v.1 as int)) && v.1
            <= s@.len(),
        r is None ==> ps_task(s@, p as int) is None,
{
    proof {
        reveal(ps_task);
        reveal(ps_task_rest);
        reveal(ps_task_tail);
    }
    let q1 = match expect_lit(s, p, "id ") {
        None => {
            return None;
        },
        Some(v) => v,
    };
    let (id, q2) = match parse_decimal(s, q1, '\n') {
        None => {
            return None;
        },
        Some(v) => v,
    };
    let q3 = match expect_lit(s, q2, "title ") {
        None => {
            return None;
        },
        Some(v) => v,
    };
    let (title, q4) = match parse_text(s, q3) {
        None => {
            return None;
        },
        Some(v) => v,
    };
    let q5 = match expect_lit(s, q4, "description ") {
        None => {
            return None;
        },
        Some(v) => v,
    };
    let (description, q6) = match parse_opt_text(s, q5) {
        None => {
            return None;
        },
        Some(v) => v,
    };
    let q7 = match expect_lit(s, q6, "priority ") {
        None => {
            return None;
        },
        Some(v) => v,
    };
    let (priority, q8) = match parse_priority(s, q7) {
        None => {
            return None;
        },
        Some(v) => v,
    };
    let r1 = match expect_lit(s, q8, "status ") {
        None => {
            return None;
        },
        Some(v) => v,
    };
    let (status, r2) = match parse_status(s, r1) {
        None => {
            return None;
        },
        Some(v) => v,
    };
    let r3 = match expect_lit(s, r2, "due ") {
        None => {
            return None;
        },
        Some(v) => v,
    };
    let (due_date, r4) = match parse_opt_ts(s, r3) {
        None => {
            return None;
        },
        Some(v) => v,
    };
    let r5 = match expect_lit(s, r4, "created ") {
        None => {
            return None;
        },
        Some(v) => v,
    };
    let (created_at, r6) = match parse_ts(s, r5) {
        None => {
            return None;
        },
        Some(v) => v,
    };
    let w1 = match expect_lit(s, r6, "categories ") {
        None => {
            return None;
        },
        Some(v) => v,
    };
    let (nc, w2) = match parse_decimal(s, w1, '\n') {
        None => {
            return None;
        },
        Some(v) => v,
    };
    let (categories, w3) = match parse_cats(s, w2, nc) {
        None => {
            return None;
        },
        Some(v) => v,
    };
    let w4 = match expect_lit(s, w3, "entries ") {
        None => {
            return None;
        },
        Some(v) => v,
    };
    let (ne, w5) = match parse_decimal(s, w4, '\n') {
        None => {
            return None;
        },
        Some(v) => v,
    };
    let (time_entries, w6) = match parse_entries(s, w5, ne) {
        None => {
            return None;
        },
        Some(v) => v,
    };
    let w7 = match expect_lit(s, w6, "current ") {
        None => {
            return None;
        },
        Some(v) => v,
    };
    let (current_time_entry, w8) = match parse_opt_entry(s, w7) {
        None => {
            return None;
        },
        Some(v) => v,
    };
    let w9 = match expect_lit(s, w8, "notified ") {
        None => {
            return None;
        },
        Some(v) => v,
    };
    let (last_notification, e) = match parse_opt_ts(s, w9) {
        None => {
            return None;
        },
        Some(v) => v,
    };
    let task = Task {
        id,
        title,
        description,
        priority,
        status,
        due_date,
        created_at,
        categories,
        time_entries,
        current_time_entry,
        last_notification,
    };
    assert(ps_task(s@, p as int) == Some((task@, e as int))) by {
        assert(task@.categories =~= crate::model::cats_view(categories@));
    }
    Some((task, e))
}


// Round trip of a task, one unit at a time: each lemma distills what
// the parser meets at its unit's position, and small assembly lemmas
// chain those facts through the parse functions.

pub proof fn rt_unit_id(s: Seq<char>, q: int, t: TaskView)
    requires
        0 <= q,
        q + unit_id(t).len() <= s.len(),
        s.subrange(q, q + unit_id(t).len()) == unit_id(t),
    ensures
        spec_expect(s, q, "id "@) == Some(q + "id "@.len()),
        spec_parse_decimal(s, q + "id "@.len(), '\n') == Some((t.id, q + unit_id(t).len())),
{
    reveal(unit_id);
    lemma_split(s, q, "id "@, num_nl(t.id as nat));
    lemma_parse_decimal_of_digits(s, q + "id "@.len(), t.id, '\n');
}

pub proof fn rt_unit_title(s: Seq<char>, q: int, t: TaskView)
    requires
        0 <= q,
        t.title.len() <= u64::MAX,
        q + unit_title(t).len() <= s.len(),
        s.subrange(q, q + unit_title(t).len()) == unit_title(t),
    ensures
        spec_expect(s, q, "title "@) == Some(q + "title "@.len()),
        ps_text(s, q + "title "@.len()) == Some((t.title, q + unit_title(t).len())),
{
    reveal(unit_title);
    lemma_split(s, q, "title "@, render_text(t.title));
    rt_text(s, q + "title "@.len(), t.title);
}

pub proof fn rt_unit_desc(s: Seq<char>, q: int, t: TaskView)
    requires
        0 <= q,
        t.description matches Some(d) ==> d.len() <= u64::MAX,
        q + unit_desc(t).len() <= s.len(),
        s.subrange(q, q + unit_desc(t).len()) == unit_desc(t),
    ensures
        spec_expect(s, q, "description "@) == Some(q + "description "@.len()),
        ps_opt_text(s, q + "description "@.len()) == Some((t.description, q + unit_desc(t).len())),
{
    reveal(unit_desc);
    lemma_split(s, q, "description "@, render_opt_text(t.description));
    rt_opt_text(s, q + "description "@.len(), t.description);
}

pub proof fn rt_unit_prio(s: Seq<char>, q: int, t: TaskView)
    requires
        0 <= q,
        q + unit_prio(t).len() <= s.len(),
        s.subrange(q, q + unit_prio(t).len()) == unit_prio(t),
    ensures
        spec_expect(s, q, "priority "@) == Some(q + "priority "@.len()),
        ps_priority(s, q + "priority "@.len()) == Some((t.priority, q + unit_prio(t).len())),
{
    reveal(unit_prio);
    lemma_split(s, q, "priority "@, render_priority(t.priority));
    rt_priority(s, q + "priority "@.len(), t.priority);
}

pub proof fn rt_unit_status(s: Seq<char>, q: int, t: TaskView)
    requires
        0 <= q,
        q + unit_status(t).len() <= s.len(),
        s.subrange(q, q + unit_status(t).len()) == unit_status(t),
    ensures
        spec_expect(s, q, "status "@) == Some(q + "status "@.len()),
        ps_status(s, q + "status "@.len()) == Some((t.status, q + unit_status(t).len())),
{
    reveal(unit_status);
    lemma_split(s, q, "status "@, render_status(t.status));
    rt_status(s, q + "status "@.len(), t.status);
}

pub proof fn rt_unit_due(s: Seq<char>, q: int, t: TaskView)
    requires
        0 <= q,
        t.due_date matches Some(d) ==> d.wf(),
        q + unit_due(t).len() <= s.len(),
        s.subrange(q, q + unit_due(t).len()) == unit_due(t),
    ensures
        spec_expect(s, q, "due "@) == Some(q + "due "@.len()),
        ps_opt_ts(s, q + "due "@.len()) == Some((t.due_date, q + unit_due(t).len())),
{
    reveal(unit_due);
    lemma_split(s, q, "due "@, render_opt_ts(t.due_date));
    rt_opt_ts(s, q + "due "@.len(), t.due_date);
}

pub proof fn rt_unit_created(s: Seq<char>, q: int, t: TaskView)
    requires
        0 <= q,
        t.created_at.wf(),
        q + unit_created(t).len() <= s.len(),
        s.subrange(q, q + unit_created(t).len()) == unit_created(t),
    ensures
        spec_expect(s, q, "created "@) == Some(q + "created "@.len()),
        ps_ts(s, q + "created "@.len()) == Some((t.created_at, q + unit_created(t).len())),
{
    reveal(unit_created);
    lemma_split(s, q, "created "@, render_ts(t.created_at));
    rt_ts(s, q + "created "@.len(), t.created_at);
}

pub proof fn rt_unit_cats(s: Seq<char>, q: int, t: TaskView)
    requires
        0 <= q,
        t.categories.len() <= u64::MAX,
        forall|i: int| 0 <= i < t.categories.len() ==> cat_bounded(#[trigger] t.categories[i]),
        q + unit_cats(t).len() <= s.len(),
        s.subrange(q, q + unit_cats(t).len()) == unit_cats(t),
    ensures
        spec_expect(s, q, "categories "@) == Some(q + "categories "@.len()),
        spec_parse_decimal(s, q + "categories "@.len(), '\n') == Some(
            (
                t.categories.len() as u64,
                q + "categories "@.len() + num_nl(t.categories.len()).len(),
            ),
        ),
        ps_cats(
            s,
            q + "categories "@.len() + num_nl(t.categories.len()).len(),
            t.categories.len(),
        ) == Some((t.categories, q + unit_cats(t).len())),
{
    reveal(unit_cats);
    lemma_split(s, q, "categories "@, num_nl(t.categories.len()) + render_cats(t.categories));
    let c1 = q + "categories "@.len();
    lemma_split(s, c1, num_nl(t.categories.len()), render_cats(t.categories));
    lemma_parse_decimal_of_digits(s, c1, t.categories.len() as u64, '\n');
    rt_cats(s, c1 + num_nl(t.categories.len()).len(), t.categories);
}

pub proof fn rt_unit_entries(s: Seq<char>, q: int, t: TaskView)
    requires
        0 <= q,
        t.time_entries.len() <= u64::MAX,
        forall|i: int|
            0 <= i < t.time_entries.len() ==> entry_serializable(#[trigger] t.time_entries[i]),
        q + unit_entries(t).len() <= s.len(),
        s.subrange(q, q + unit_entries(t).len()) == unit_entries(t),
    ensures
        spec_expect(s, q, "entries "@) == Some(q + "entries "@.len()),
        spec_parse_decimal(s, q + "entries "@.len(), '\n') == Some(
            (
                t.time_entries.len() as u64,
                q + "entries "@.len() + num_nl(t.time_entries.len()).len(),
            ),
        ),
        ps_entries(
            s,
            q + "entries "@.len() + num_nl(t.time_entries.len()).len(),
            t.time_entries.len(),
        ) == Some((t.time_entries, q + unit_entries(t).len())),
{
    reveal(unit_entries);
    lemma_split(s, q, "entries "@, num_nl(t.time_entries.len()) + render_entries(t.time_entries));
    let e1 = q + "entries "@.len();
    lemma_split(s, e1, num_nl(t.time_entries.len()), render_entries(t.time_entries));
    lemma_parse_decimal_of_digits(s, e1, t.time_entries.len() as u64, '\n');
    rt_entries(s, e1 + num_nl(t.time_entries.len()).len(), t.time_entries);
}

pub proof fn rt_unit_current(s: Seq<char>, q: int, t: TaskView)
    requires
        0 <= q,
        t.current_time_entry matches Some(x) ==> entry_serializable(x),
        q + unit_current(t).len() <= s.len(),
        s.subrange(q, q + unit_current(t).len()) == unit_current(t),
    ensures
        spec_expect(s, q, "current "@) == Some(q + "current "@.len()),
        ps_opt_entry(s, q + "current "@.len()) == Some(
            (t.current_time_entry, q + unit_current(t).len()),
        ),
{
    reveal(unit_current);
    lemma_split(s, q, "current "@, render_opt_entry(t.current_time_entry));
    rt_opt_entry(s, q + "current "@.len(), t.current_time_entry);
}

pub proof fn rt_unit_notified(s: Seq<char>, q: int, t: TaskView)
    requires
        0 <= q,
        t.last_notification matches Some(n) ==> n.wf(),
        q + unit_notified(t).len() <= s.len(),
        s.subrange(q, q + unit_notified(t).len()) == unit_notified(t),
    ensures
        spec_expect(s, q, "notified "@) == Some(q + "notified "@.len()),
        ps_opt_ts(s, q + "notified "@.len()) == Some(
            (t.last_notification, q + unit_notified(t).len()),
        ),
{
    reveal(unit_notified);
    lemma_split(s, q, "notified "@, render_opt_ts(t.last_notification));
    rt_opt_ts(s, q + "notified "@.len(), t.last_notification);
}

/// Chains the distilled unit facts through `ps_task_tail`.
pub proof fn rt_assemble_tail(s: Seq<char>, p7: int, p8: int, p9: int, p10: int, p11: int, t: TaskView)
    requires
        t.categories.len() <= u64::MAX,
        t.time_entries.len() <= u64::MAX,
        p8 == p7 + unit_cats(t).len(),
        p9 == p8 + unit_entries(t).len(),
        p10 == p9 + unit_current(t).len(),
        p11 == p10 + unit_notified(t).len(),
        spec_expect(s, p7, "categories "@) == Some(p7 + "categories "@.len()),
        spec_parse_decimal(s, p7 + "categories "@.len(), '\n') == Some(
            (
                t.categories.len() as u64,
                p7 + "categories "@.len() + num_nl(t.categories.len()).len(),
            ),
        ),
        ps_cats(
            s,
            p7 + "categories "@.len() + num_nl(t.categories.len()).len(),
            t.categories.len(),
        ) == Some((t.categories, p8)),
        spec_expect(s, p8, "entries "@) == Some(p8 + "entries "@.len()),
        spec_parse_decimal(s, p8 + "entries "@.len(), '\n') == Some(
            (
                t.time_entries.len() as u64,
                p8 + "entries "@.len() + num_nl(t.time_entries.len()).len(),
            ),
        ),
        ps_entries(
            s,
            p8 + "entries "@.len() + num_nl(t.time_entries.len()).len(),
            t.time_entries.len(),
        ) == Some((t.time_entries, p9)),
        spec_expect(s, p9, "current "@) == Some(p9 + "current "@.len()),
        ps_opt_entry(s, p9 + "current "@.len()) == Some((t.current_time_entry, p10)),
        spec_expect(s, p10, "notified "@) == Some(p10 + "notified "@.len()),
        ps_opt_ts(s, p10 + "notified "@.len()) == Some((t.last_notification, p11)),
    ensures
        ps_task_tail(s, p7) == Some(
            ((t.categories, t.time_entries, t.current_time_entry, t.last_notification), p11),
        ),
{
    reveal(ps_task_tail);
    assert((t.categories.len() as u64) as nat == t.categories.len());
    assert((t.time_entries.len() as u64) as nat == t.time_entries.len());
}

/// Chains the distilled unit facts through `ps_task_rest`.
pub proof fn rt_assemble_rest(s: Seq<char>, p4: int, p5: int, p6: int, p7: int, p11: int, t: TaskView)
    requires
        p5 == p4 + unit_status(t).len(),
        p6 == p5 + unit_due(t).len(),
        p7 == p6 + unit_created(t).len(),
        spec_expect(s, p4, "status "@) == Some(p4 + "status "@.len()),
        ps_status(s, p4 + "status "@.len()) == Some((t.status, p5)),
        spec_expect(s, p5, "due "@) == Some(p5 + "due "@.len()),
        ps_opt_ts(s, p5 + "due "@.len()) == Some((t.due_date, p6)),
        spec_expect(s, p6, "created "@) == Some(p6 + "created "@.len()),
        ps_ts(s, p6 + "created "@.len()) == Some((t.created_at, p7)),
        ps_task_tail(s, p7) == Some(
            ((t.categories, t.time_entries, t.current_time_entry, t.last_notification), p11),
        ),
    ensures
        ps_task_rest(s, p4, t.id, t.title, t.description, t.priority) == Some((t, p11)),
{
    reveal(ps_task_rest);
    assert(ps_task_rest(s, p4, t.id, t.title, t.description, t.priority)->Some_0.0 =~= t);
}

/// Parsing a rendered task yields it back.
#[verifier::rlimit(100)]
pub proof fn rt_task(s: Seq<char>, p: int, t: TaskView)
    requires
        0 <= p,
        crate::model::task_wf(t),
        task_bounded(t),
        p + render_task(t).len() <= s.len(),
        s.subrange(p, p + render_task(t).len()) == render_task(t),
    ensures
        ps_task(s, p) == Some((t, p + render_task(t).len())),
{
    reveal(render_task);
    reveal(ps_task);
    lemma_task_serializable(t);
    let u1 = unit_id(t);
    let u2 = unit_title(t);
    let u3 = unit_desc(t);
    let u4 = unit_prio(t);
    let u5 = unit_status(t);
    let u6 = unit_due(t);
    let u7 = unit_created(t);
    let u8 = unit_cats(t);
    let u9 = unit_entries(t);
    let u10 = unit_current(t);
    let u11 = unit_notified(t);
    let p1 = p + u1.len();
    let p2 = p1 + u2.len();
    let p3 = p2 + u3.len();
    let p4 = p3 + u4.len();
    let p5 = p4 + u5.len();
    let p6 = p5 + u6.len();
    let p7 = p6 + u7.len();
    let p8 = p7 + u8.len();
    let p9 = p8 + u9.len();
    let p10 = p9 + u10.len();
    let p11 = p10 + u11.len();
    lemma_split(s, p, u1, u2 + (u3 + (u4 + (u5 + (u6 + (u7 + (u8 + (u9 + (u10 + u11)))))))));
    lemma_split(s, p1, u2, u3 + (u4 + (u5 + (u6 + (u7 + (u8 + (u9 + (u10 + u11))))))));
    lemma_split(s, p2, u3, u4 + (u5 + (u6 + (u7 + (u8 + (u9 + (u10 + u11)))))));
    lemma_split(s, p3, u4, u5 + (u6 + (u7 + (u8 + (u9 + (u10 + u11))))));
    lemma_split(s, p4, u5, u6 + (u7 + (u8 + (u9 + (u10 + u11)))));
    lemma_split(s, p5, u6, u7 + (u8 + (u9 + (u10 + u11))));
    lemma_split(s, p6, u7, u8 + (u9 + (u10 + u11)));
    lemma_split(s, p7, u8, u9 + (u10 + u11));
    lemma_split(s, p8, u9, u10 + u11);
    lemma_split(s, p9, u10, u11);
    rt_unit_id(s, p, t);
    rt_unit_title(s, p1, t);
    rt_unit_desc(s, p2, t);
    rt_unit_prio(s, p3, t);
    rt_unit_status(s, p4, t);
    rt_unit_due(s, p5, t);
    rt_unit_created(s, p6, t);
    rt_unit_cats(s, p7, t);
    rt_unit_entries(s, p8, t);
    rt_unit_current(s, p9, t);
    rt_unit_notified(s, p10, t);
    rt_assemble_tail(s, p7, p8, p9, p10, p11, t);
    rt_assemble_rest(s, p4, p5, p6, p7, p11, t);
}

// ---------------------------------------------------------------------
// The whole collection
// ---------------------------------------------------------------------

pub open spec fn tasks_view(ts: Seq<Task>) -> Seq<TaskView> {
    ts.map_values(|t: Task| t@)
}

pub open spec fn render_tasks_list(ts: Seq<TaskView>) -> Seq<char>
    decreases ts.len(),
{
    if ts.len() == 0 {
        Seq::empty()
    } else {
        render_task(ts[0]) + render_tasks_list(ts.subrange(1, ts.len() as int))
    }
}

pub open spec fn ps_tasks_list(s: Seq<char>, p: int, n: nat) -> Option<(Seq<TaskView>, int)>
    decreases n,
{
    if n == 0 {
        Some((Seq::empty(), p))
    } else {
        match ps_task(s, p) {
            None => None,
            Some((x, p1)) => match ps_tasks_list(s, p1, (n - 1) as nat) {
                None => None,
                Some((rest, e)) => Some((seq![x] + rest, e)),
            },
        }
    }
}

pub proof fn lemma_render_tasks_list_push(ts: Seq<TaskView>, x: TaskView)
    ensures
        render_tasks_list(ts.push(x)) == render_tasks_list(ts) + render_task(x),
    decreases ts.len(),
{
    let all = ts.push(x);
    if ts.len() == 0 {
        reveal_with_fuel(render_tasks_list, 3);
        assert(all.subrange(1, all.len() as int) =~= Seq::<TaskView>::empty());
        assert(all[0] == x);
        assert(render_tasks_list(ts) + render_task(x) =~= render_task(x));
        assert(render_tasks_list(all) =~= render_task(x) + Seq::<char>::empty());
    } else {
        assert(all.subrange(1, all.len() as int) =~= ts.subrange(1, ts.len() as int).push(x));
        lemma_render_tasks_list_push(ts.subrange(1, ts.len() as int), x);
        assert(all[0] == ts[0]);
        assert(render_tasks_list(all) =~= render_tasks_list(ts) + render_task(x));
    }
}

pub fn push_tasks_list(out: &mut Vec<char>, ts: &Vec<Task>)
    requires
        forall|i: int| 0 <= i < ts@.len() ==> crate::model::task_wf(#[trigger] ts@[i]@),
    ensures
        final(out)@ == old(out)@ + render_tasks_list(tasks_view(ts@)),
{
    let ghost tv = tasks_view(ts@);
    let n = ts.len();
    let mut i: usize = 0;
    while i < n
        invariant
            0 <= i <= n,
            n == ts@.len(),
            tv == tasks_view(ts@),
            forall|j: int| 0 <= j < n ==> crate::model::task_wf(#[trigger] ts@[j]@),
            out@ == old(out)@ + render_tasks_list(tv.take(i as int)),
        decreases n - i,
    {
        push_task(out, &ts[i]);
        proof {
            lemma_render_tasks_list_push(tv.take(i as int), tv[i as int]);
            assert(tv.take(i + 1) =~= tv.take(i as int).push(tv[i as int]));
            assert(tv[i as int] == ts@[i as int]@);
        }
        i = i + 1;
    }
    assert(tv.take(n as int) =~= tv);
}

pub fn parse_tasks_list(s: &Vec<char>, p: usize, n: u64) -> (r: Option<(Vec<Task>, usize)>)
    requires
        p <= s@.len(),
    ensures
        r matches Some(v) ==> ps_tasks_list(s@, p as int, n as nat) == Some(
            (tasks_view(v.0@), v.1 as int),
        ) && v.1 <= s@.len(),
        r is None ==> ps_tasks_list(s@, p as int, n as nat) is None,
{
    let mut out: Vec<Task> = Vec::new();
    let mut cur: usize = p;
    let mut k: u64 = 0;
    while k < n
        invariant
            0 <= k <= n,
            cur <= s@.len(),
            ({
                let full = ps_tasks_list(s@, p as int, n as nat);
                match ps_tasks_list(s@, cur as int, (n - k) as nat) {
                    None => full is None,
                    Some((rest, e)) => full == Some((tasks_view(out@) + rest, e)),
                }
            }),
        decreases n - k,
    {
        let ghost pre = tasks_view(out@);
        match parse_task(s, cur) {
            None => {
                return None;
            },
            Some((x, p1)) => {
                let ghost xv = x@;
                out.push(x);
                cur = p1;
                k = k + 1;
                proof {
                    assert(tasks_view(out@) =~= pre.push(xv));
                    let rem = ps_tasks_list(s@, cur as int, (n - k) as nat);
                    if rem is Some {
                        let rest = rem->Some_0.0;
                        assert(pre + (seq![xv] + rest) =~= pre.push(xv) + rest);
                    }
                }
            },
        }
    }
    assert(ps_tasks_list(s@, cur as int, 0) == Some((Seq::<TaskView>::empty(), cur as int)));
    assert(tasks_view(out@) + Seq::<TaskView>::empty() =~= tasks_view(out@));
    Some((out, cur))
}

pub proof fn rt_tasks_list(s: Seq<char>, p: int, ts: Seq<TaskView>)
    requires
        0 <= p,
        crate::model::tasks_wf(ts),
        forall|i: int| 0 <= i < ts.len() ==> task_bounded(#[trigger] ts[i]),
        p + render_tasks_list(ts).len() <= s.len(),
        s.subrange(p, p + render_tasks_list(ts).len()) == render_tasks_list(ts),
    ensures
        ps_tasks_list(s, p, ts.len()) == Some((ts, p + render_tasks_list(ts).len())),
    decreases ts.len(),
{
    if ts.len() == 0 {
        assert(ts =~= Seq::<TaskView>::empty());
    } else {
        let rest = ts.subrange(1, ts.len() as int);
        lemma_split(s, p, render_task(ts[0]), render_tasks_list(rest));
        assert(crate::model::task_wf(ts[0]));
        rt_task(s, p, ts[0]);
        assert(forall|i: int| 0 <= i < rest.len() ==> #[trigger] rest[i] == ts[i + 1]);
        rt_tasks_list(s, p + render_task(ts[0]).len(), rest);
        assert(seq![ts[0]] + rest =~= ts);
    }
}

/// The whole file: a count line, then that many tasks, and nothing
/// after them.
pub open spec fn render_tasks(ts: Seq<TaskView>) -> Seq<char> {
    "tasks "@ + (num_nl(ts.len()) + render_tasks_list(ts))
}

pub open spec fn ps_tasks(s: Seq<char>) -> Option<Seq<TaskView>> {
    match spec_expect(s, 0, "tasks "@) {
        None => None,
        Some(p1) => match spec_parse_decimal(s, p1, '\n') {
            None => None,
            Some((n, p2)) => match ps_tasks_list(s, p2, n as nat) {
                None => None,
                Some((ts, e)) => if e == s.len() {
                    Some(ts)
                } else {
                    None
                },
            },
        },
    }
}

/// Why a stored collection was rejected rather than silently replaced
/// by an empty one.
#[derive(Clone, Copy, Debug, PartialEq, Eq, Structural)]
pub enum LoadError {
    /// The text does not parse as a rendered collection.
    Malformed,
    /// It parses, but some task breaks the collection's invariants.
    Invalid,
}

/// The meaning of stored text: the collection it denotes, or why it is
/// rejected.
pub open spec fn spec_load(s: Seq<char>) -> Result<Seq<TaskView>, LoadError> {
    match ps_tasks(s) {
        None => Err(LoadError::Malformed),
        Some(ts) => if crate::model::tasks_wf(ts) {
            Ok(ts)
        } else {
            Err(LoadError::Invalid)
        },
    }
}

impl crate::ops::TaskManager {
    /// Renders the whole collection for storage.
    pub fn save(&self) -> (out: Vec<char>)
        requires
            self.wf(),
        ensures
            out@ == render_tasks(self@),
    {
        let mut out: Vec<char> = Vec::new();
        push_str_chars(&mut out, "tasks ");
        push_decimal(&mut out, self.tasks.len() as u128);
        out.push('\n');
        let ghost mid = out@;
        assert forall|i: int|
            0 <= i < self.tasks@.len() implies crate::model::task_wf(#[trigger] self.tasks@[i]@) by {
            assert(self@[i] == self.tasks@[i]@);
            assert(crate::model::task_wf(self@[i]));
        }
        push_tasks_list(&mut out, &self.tasks);
        assert(tasks_view(self.tasks@) == self@);
        assert(out@ =~= render_tasks(self@));
        out
    }

    /// Parses stored text back into a collection; malformed or
    /// ill-formed contents are an error, never silently dropped.
    pub fn load(s: &Vec<char>) -> (r: Result<Self, LoadError>)
        ensures
            r matches Ok(m) ==> spec_load(s@) == Ok::<Seq<TaskView>, LoadError>(m@) && m.wf(),
            r matches Err(e) ==> spec_load(s@) == Err::<Seq<TaskView>, LoadError>(e),
    {
        let p1 = match expect_lit(s, 0, "tasks ") {
            None => {
                return Err(LoadError::Malformed);
            },
            Some(v) => v,
        };
        let (n, p2) = match parse_decimal(s, p1, '\n') {
            None => {
                return Err(LoadError::Malformed);
            },
            Some(v) => v,
        };
        let (tasks, e) = match parse_tasks_list(s, p2, n) {
            None => {
                return Err(LoadError::Malformed);
            },
            Some(v) => v,
        };
        if e != s.len() {
            return Err(LoadError::Malformed);
        }
        let k = tasks.len();
        let mut i: usize = 0;
        while i < k
            invariant
                0 <= i <= k,
                k == tasks@.len(),
                ps_tasks(s@) == Some(tasks_view(tasks@)),
                forall|j: int| 0 <= j < i ==> crate::model::task_wf(#[trigger] tasks@[j]@),
            decreases k - i,
        {
            if !crate::model::check_task_wf(&tasks[i]) {
                assert(!crate::model::task_wf(tasks_view(tasks@)[i as int]));
                return Err(LoadError::Invalid);
            }
            i = i + 1;
        }
        let m = crate::ops::TaskManager { tasks };
        assert(crate::model::tasks_wf(m@)) by {
            assert(forall|j: int| 0 <= j < m@.len() ==> #[trigger] m@[j] == tasks@[j]@);
        }
        Ok(m)
    }
}

// ---------------------------------------------------------------------
// The round trip
// ---------------------------------------------------------------------

/// Saving a collection and loading the result yields the identical
/// collection: same ids, fields, nested entries and timestamps.
pub proof fn lemma_save_load_round_trip(ts: Seq<TaskView>)
    requires
        crate::model::tasks_wf(ts),
        tasks_bounded(ts),
    ensures
        spec_load(render_tasks(ts)) == Ok::<Seq<TaskView>, LoadError>(ts),
{
    let s = render_tasks(ts);
    assert(s.subrange(0, s.len() as int) =~= s);
    lemma_split(s, 0, "tasks "@, num_nl(ts.len()) + render_tasks_list(ts));
    let p1: int = 0 + "tasks "@.len() as int;
    lemma_split(s, p1, num_nl(ts.len()), render_tasks_list(ts));
    lemma_parse_decimal_of_digits(s, p1, ts.len() as u64, '\n');
    let p2: int = p1 + num_nl(ts.len()).len() as int;
    rt_tasks_list(s, p2, ts);
    assert((ts.len() as u64) as nat == ts.len());
    assert(spec_expect(s, 0, "tasks "@) == Some(p1));
}

} // verus!
