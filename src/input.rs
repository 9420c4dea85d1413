//! Reading a task's fields from lines of text: a priority, and a
//! comma-separated list of tags.
use vstd::prelude::*;
use vstd::string::StrSliceExecFns;
use crate::task::tags_view;

verus! {

/// The text with leading and trailing whitespace removed, as `str::trim`
/// does it.
pub uninterp spec fn trim_of(s: Seq<char>) -> Seq<char>;

/// Relies on `str::trim`: the result depends on the characters alone.
#[verifier::external_body]
fn trimmed(s: &str) -> (r: &str)
    ensures
        r@ == trim_of(s@),
{
    s.trim()
}

/// An ASCII decimal digit.
pub open spec fn is_digit(c: char) -> bool {
    '0' <= c <= '9'
}

/// The number that a string of decimal digits writes.
pub open spec fn digits_value(d: Seq<char>) -> nat
    decreases d.len(),
{
    if d.len() == 0 {
        0
    } else {
        digits_value(d.drop_last()) * 10 + ((d.last() as u32) - ('0' as u32)) as nat
    }
}

/// The digits of an unsigned decimal: the text after an optional `+`.
pub open spec fn unsigned_digits(s: Seq<char>) -> Seq<char> {
    if s.len() > 0 && s[0] == '+' {
        s.drop_first()
    } else {
        s
    }
}

/// The `u32` that `s` writes in decimal: an optional `+` and then one or more
/// digits, of a value that fits; nothing for any other text.
pub open spec fn decimal_u32(s: Seq<char>) -> Option<u32> {
    let d = unsigned_digits(s);
    if d.len() > 0 && (forall|i: int| 0 <= i < d.len() ==> is_digit(#[trigger] d[i])) && digits_value(d)
        <= u32::MAX {
        Some(digits_value(d) as u32)
    } else {
        None
    }
}

/// Relies on `u32`'s `FromStr`: an optional `+` followed by decimal digits,
/// whose value fits in a `u32`, is accepted; anything else is an error.
#[verifier::external_body]
fn parse_u32(s: &str) -> (r: Option<u32>)
    ensures
        r == decimal_u32(s@),
{
    s.parse::<u32>().ok()
}

/// The priority written by `text`, which is trimmed first; 0 where it
/// writes none.
pub fn parse_priority(text: &str) -> (r: u32)
    ensures
        r == match decimal_u32(trim_of(text@)) {
            Some(v) => v,
            None => 0,
        },
{
    priority_or_zero(trimmed(text))
}

/// The priority written by `text`, taken as it is; 0 where it writes none.
pub fn priority_or_zero(text: &str) -> (r: u32)
    ensures
        r == match decimal_u32(text@) {
            Some(v) => v,
            None => 0,
        },
{
    match parse_u32(text) {
        Some(v) => v,
        None => 0,
    }
}

/// The pieces of `s` between commas: one more than there are commas.
pub open spec fn comma_pieces(s: Seq<char>) -> Seq<Seq<char>>
    decreases s.len(),
{
    if s.len() == 0 {
        seq![Seq::empty()]
    } else {
        let p = comma_pieces(s.drop_last());
        if s.last() == ',' {
            p.push(Seq::empty())
        } else {
            p.update(p.len() - 1, p.last().push(s.last()))
        }
    }
}

/// Each piece trimmed, keeping those that are not empty.
pub open spec fn kept_tags(pieces: Seq<Seq<char>>) -> Seq<Seq<char>>
    decreases pieces.len(),
{
    if pieces.len() == 0 {
        Seq::empty()
    } else {
        let prev = kept_tags(pieces.drop_last());
        let t = trim_of(pieces.last());
        if t.len() > 0 {
            prev.push(t)
        } else {
            prev
        }
    }
}

/// The tags that a line lists: the line is trimmed and cut at each comma,
/// each piece trimmed, and the empty ones dropped.
pub open spec fn tags_of(line: Seq<char>) -> Seq<Seq<char>> {
    kept_tags(comma_pieces(trim_of(line)))
}

/// Cuts `s` at each comma.
pub fn split_commas(s: &str) -> (r: Vec<String>)
    ensures
        tags_view(r@) == comma_pieces(s@),
{
    let n = s.unicode_len();
    let mut out: Vec<String> = Vec::new();
    let mut start: usize = 0;
    let mut i: usize = 0;
    proof {
        assert(s@.take(0) =~= Seq::<char>::empty());
        assert(tags_view(out@).push(s@.subrange(0, 0)) =~= seq![Seq::<char>::empty()]);
    }
    while i < n
        invariant
            n == s@.len(),
            start <= i <= n,
            tags_view(out@).push(s@.subrange(start as int, i as int)) == comma_pieces(s@.take(i as int)),
        decreases n - i,
    {
        let c = s.get_char(i);
        let ghost before = tags_view(out@);
        proof {
            assert(s@.take(i + 1).drop_last() =~= s@.take(i as int));
            assert(s@.take(i + 1).last() == c);
        }
        if c == ',' {
            let piece = s.substring_char(start, i).to_owned();
            out.push(piece);
            proof {
                assert(tags_view(out@) =~= before.push(s@.subrange(start as int, i as int)));
                assert(s@.subrange(i + 1, i + 1) =~= Seq::<char>::empty());
            }
            start = i + 1;
        } else {
            proof {
                assert(s@.subrange(start as int, i + 1) =~= s@.subrange(start as int, i as int).push(c));
                assert(before.push(s@.subrange(start as int, i + 1)) =~= before.push(
                    s@.subrange(start as int, i as int),
                ).update(before.len() as int, s@.subrange(start as int, i as int).push(c)));
            }
        }
        i = i + 1;
    }
    let last = s.substring_char(start, n).to_owned();
    let ghost before = tags_view(out@);
    out.push(last);
    proof {
        assert(s@.take(n as int) =~= s@);
        assert(tags_view(out@) =~= before.push(s@.subrange(start as int, n as int)));
    }
    out
}

/// The tags that `line` lists, in order.
pub fn parse_tags(line: &str) -> (r: Vec<String>)
    ensures
        tags_view(r@) == tags_of(line@),
{
    let pieces = split_commas(trimmed(line));
    let ghost pv = tags_view(pieces@);
    let mut out: Vec<String> = Vec::new();
    let mut k: usize = 0;
    while k < pieces.len()
        invariant
            pv == tags_view(pieces@),
            pv == comma_pieces(trim_of(line@)),
            k <= pieces@.len(),
            tags_view(out@) == kept_tags(pv.take(k as int)),
        decreases pieces@.len() - k,
    {
        let t = trimmed(pieces[k].as_str());
        let ghost before = tags_view(out@);
        proof {
            assert(pv.take(k + 1).drop_last() =~= pv.take(k as int));
            assert(pv.take(k + 1).last() == pieces@[k as int]@);
        }
        if !t.is_empty() {
            out.push(t.to_owned());
            proof {
                assert(tags_view(out@) =~= before.push(t@));
            }
        }
        k = k + 1;
    }
    proof {
        assert(pv.take(pieces@.len() as int) =~= pv);
    }
    out
}

} // verus!
