//! Anchored pattern matching: the regular-expression engine behind one
//! wrapper, and the handling of what it reports.

use nom::regex::Regex;
use vstd::prelude::*;
use vstd::string::StringSliceAdditionalSpecFns;
use vstd::utf8::*;

use crate::text::slice;

verus! {

/// What the regular-expression engine reports for `pattern` on `text`: `None`
/// where the pattern does not compile or finds no match, else one entry per
/// capture group in the pattern's order, group 0 being the whole match. An
/// entry is the group's start and end as byte offsets into `text`, or `None`
/// for a group that took no part in the match.
pub uninterp spec fn regex_captures(pattern: Seq<char>, text: Seq<char>) -> Option<
    Seq<Option<(usize, usize)>>,
>;

/// Compiles `pattern` with `regex::Regex::new` and runs `Regex::captures` on
/// `text`, handing back the offsets (`Match::start`, `Match::end`) of each
/// group that `Captures::iter` yields.
///
/// Nothing is proved of this function. Its contract only gives the outcome
/// its name, `regex_captures`: the engine is deterministic, so the outcome
/// depends on the two strings alone. The pattern is compiled at every call;
/// the matchers call where the literal that opens a token stands, and
/// nowhere else.
#[verifier::external_body]
fn captures(pattern: &str, text: &str) -> (r: Option<Vec<Option<(usize, usize)>>>)
    ensures
        match r {
            Some(groups) => regex_captures(pattern@, text@) == Some(groups@),
            None => regex_captures(pattern@, text@) is None,
        },
{
    match Regex::new(pattern) {
        Ok(re) => re.captures(text).map(
            |found| found.iter().map(|group| group.map(|m| (m.start(), m.end()))).collect(),
        ),
        Err(_) => None,
    }
}

/// The groups that took part in a match, in order.
pub open spec fn present(groups: Seq<Option<(usize, usize)>>) -> Seq<(usize, usize)>
    decreases groups.len(),
{
    if groups.len() == 0 {
        Seq::empty()
    } else {
        match groups.last() {
            Some(span) => present(groups.drop_last()).push(span),
            None => present(groups.drop_last()),
        }
    }
}

/// `span` is a range of `t` that starts and ends between characters.
pub open spec fn fits(t: Seq<u8>, span: (usize, usize)) -> bool {
    &&& span.0 <= span.1 <= t.len()
    &&& is_char_boundary(t, span.0 as int)
    &&& is_char_boundary(t, span.1 as int)
}

/// The captured pieces of `t` and the number of bytes matched, for the groups
/// that a match reported.
///
/// The bytes matched end where the last present group ends. A report is
/// turned down (`None`) where no group is present, where a group does not fit
/// `t`, or where nothing was matched.
pub open spec fn pieces_at(t: Seq<u8>, groups: Seq<Option<(usize, usize)>>) -> Option<
    (Seq<Seq<u8>>, int),
> {
    let spans = present(groups);
    if spans.len() > 0 && spans.last().1 > 0 && (forall|i: int|
        0 <= i < spans.len() ==> fits(t, #[trigger] spans[i])) {
        Some(
            (
                Seq::new(spans.len(), |i: int| t.subrange(spans[i].0 as int, spans[i].1 as int)),
                spans.last().1 as int,
            ),
        )
    } else {
        None
    }
}

/// The outcome of matching `pattern` at the start of the text `t`.
pub open spec fn re_capture_at(pattern: Seq<char>, t: Seq<u8>) -> Option<(Seq<Seq<u8>>, int)> {
    match regex_captures(pattern, decode_utf8(t)) {
        Some(groups) => pieces_at(t, groups),
        None => None,
    }
}

/// The bytes of each piece.
pub open spec fn pieces_view(pieces: Seq<&str>) -> Seq<Seq<u8>> {
    Seq::new(pieces.len(), |i: int| pieces[i].spec_bytes())
}

/// The pieces as bytes, and the count as an integer.
pub open spec fn capture_view(r: Option<(Vec<&str>, usize)>) -> Option<(Seq<Seq<u8>>, int)> {
    match r {
        Some((pieces, n)) => Some((pieces_view(pieces@), n as int)),
        None => None,
    }
}

/// Collects the groups that took part in a match.
pub fn present_groups(groups: &Vec<Option<(usize, usize)>>) -> (spans: Vec<(usize, usize)>)
    ensures
        spans@ == present(groups@),
{
    let mut spans: Vec<(usize, usize)> = Vec::new();
    let mut i: usize = 0;
    while i < groups.len()
        invariant
            i <= groups.len(),
            spans@ == present(groups@.take(i as int)),
        decreases groups.len() - i,
    {
        proof {
            assert(groups@.take(i + 1).drop_last() =~= groups@.take(i as int));
        }
        match groups[i] {
            Some(span) => {
                spans.push(span);
            },
            None => {},
        }
        i = i + 1;
    }
    proof {
        assert(groups@.take(groups.len() as int) =~= groups@);
    }
    spans
}

/// Cuts the captured pieces out of `input`, and says how many bytes of it
/// were matched.
pub fn captured_pieces<'a>(input: &'a str, groups: &Vec<Option<(usize, usize)>>) -> (r: Option<
    (Vec<&'a str>, usize),
>)
    ensures
        capture_view(r) == pieces_at(input.spec_bytes(), groups@),
        r matches Some((pieces, n)) ==> 0 < n <= input.spec_bytes().len() && is_char_boundary(
            input.spec_bytes(),
            n as int,
        ),
{
    let spans = present_groups(groups);
    let ghost t = input.spec_bytes();
    proof {
        encode_utf8_valid_utf8(input@);
    }
    let mut pieces: Vec<&'a str> = Vec::new();
    let mut i: usize = 0;
    while i < spans.len()
        invariant
            t == input.spec_bytes(),
            valid_utf8(t),
            spans@ == present(groups@),
            i <= spans.len(),
            pieces.len() == i,
            forall|j: int| 0 <= j < i ==> fits(t, #[trigger] spans@[j]),
            forall|j: int|
                0 <= j < i ==> (#[trigger] pieces@[j]).spec_bytes() == t.subrange(
                    spans@[j].0 as int,
                    spans@[j].1 as int,
                ),
        decreases spans.len() - i,
    {
        let (start, end) = spans[i];
        if start > end || !input.is_char_boundary(start) || !input.is_char_boundary(end) {
            assert(!fits(t, spans@[i as int]));
            return None;
        }
        pieces.push(slice(input, start, end));
        i = i + 1;
    }
    if spans.len() == 0 {
        return None;
    }
    let n = spans[spans.len() - 1].1;
    if n == 0 {
        return None;
    }
    assert(fits(t, spans@[spans.len() - 1]));
    assert(pieces_view(pieces@) =~= Seq::new(
        spans@.len(),
        |i: int| t.subrange(spans@[i].0 as int, spans@[i].1 as int),
    ));
    Some((pieces, n))
}

/// Matches `pattern` at the start of `input`.
pub fn re_capture<'a>(pattern: &str, input: &'a str) -> (r: Option<(Vec<&'a str>, usize)>)
    ensures
        capture_view(r) == re_capture_at(pattern@, input.spec_bytes()),
        r matches Some((pieces, n)) ==> 0 < n <= input.spec_bytes().len() && is_char_boundary(
            input.spec_bytes(),
            n as int,
        ),
{
    proof {
        encode_utf8_decode_utf8(input@);
    }
    match captures(pattern, input) {
        Some(groups) => captured_pieces(input, &groups),
        None => None,
    }
}

} // verus!
