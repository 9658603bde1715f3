//! Digests: five field elements, written `(n1,n2,n3,n4,n5)`.

use vstd::prelude::*;
use crate::error::{Error, FormatError, ParseError};
use crate::number::{decimal_text, lemma_decimal_parses, lemma_decimal_text, number_result, parse_number_chars};
use crate::text::{
    all_white_space, chars_of, lemma_trim_ignores_surrounding_white, lemma_trim_unchanged, trim,
    trim_bounds,
};

verus! {

/// Five field elements, in order.
#[derive(Clone, Copy, Debug, PartialEq, Eq)]
pub struct Digest {
    pub elements: [u64; 5],
}

impl View for Digest {
    type V = Seq<u64>;

    open spec fn view(&self) -> Seq<u64> {
        self.elements@
    }
}

impl Digest {
    pub fn new(elements: [u64; 5]) -> (r: Digest)
        ensures
            r@ == elements@,
    {
        Digest { elements }
    }

    pub fn values(&self) -> (r: [u64; 5])
        ensures
            r@ == self@,
    {
        self.elements
    }
}

/// The pieces of `s` between commas, as `str::split(',')` gives them: one
/// more piece than there are commas.
pub open spec fn split_commas(s: Seq<char>) -> Seq<Seq<char>>
    decreases s.len(),
{
    if s.len() == 0 {
        seq![Seq::<char>::empty()]
    } else {
        let rest = split_commas(s.drop_last());
        if s.last() == ',' {
            rest.push(Seq::<char>::empty())
        } else {
            rest.update(rest.len() - 1, rest.last().push(s.last()))
        }
    }
}

/// Parses each piece in order; the first failure is the result.
pub open spec fn parse_all(pieces: Seq<Seq<char>>) -> Result<Seq<u64>, ParseError>
    decreases pieces.len(),
{
    if pieces.len() == 0 {
        Ok(Seq::<u64>::empty())
    } else {
        match parse_all(pieces.drop_last()) {
            Err(e) => Err(e),
            Ok(vs) => match number_result(pieces.last()) {
                Err(e) => Err(e),
                Ok(v) => Ok(vs.push(v)),
            },
        }
    }
}

/// The result of parsing a digest token: after trimming it must be `(`,
/// then five comma-separated numeric tokens, then `)`.
pub open spec fn digest_result(s: Seq<char>) -> Result<Seq<u64>, Error> {
    let t = trim(s);
    if t.len() == 0 || t[0] != '(' {
        Err(Error::Format(FormatError::MissingOpeningParenthesis))
    } else if t.len() < 2 || t.last() != ')' {
        Err(Error::Format(FormatError::MissingClosingParenthesis))
    } else {
        let pieces = split_commas(t.subrange(1, t.len() - 1));
        if pieces.len() != 5 {
            Err(Error::Format(FormatError::WrongElementCount))
        } else {
            match parse_all(pieces) {
                Err(e) => Err(Error::Parse(e)),
                Ok(vs) => Ok(vs),
            }
        }
    }
}

/// A parsed digest seen through its elements.
pub open spec fn digest_view_result(r: Result<Digest, Error>) -> Result<Seq<u64>, Error> {
    match r {
        Ok(d) => Ok(d@),
        Err(e) => Err(e),
    }
}

/// The character sequences of a vector of pieces.
pub open spec fn views_of(pieces: Seq<Vec<char>>) -> Seq<Seq<char>> {
    pieces.map_values(|p: Vec<char>| p@)
}

proof fn lemma_split_nonempty(s: Seq<char>)
    ensures
        split_commas(s).len() >= 1,
    decreases s.len(),
{
    if s.len() > 0 {
        lemma_split_nonempty(s.drop_last());
    }
}

/// Splits `s[lo..hi]` on commas.
fn split_on_commas(s: &Vec<char>, lo: usize, hi: usize) -> (r: Vec<Vec<char>>)
    requires
        lo <= hi <= s@.len(),
    ensures
        views_of(r@) == split_commas(s@.subrange(lo as int, hi as int)),
{
    let ghost content = s@.subrange(lo as int, hi as int);
    let mut pieces: Vec<Vec<char>> = Vec::new();
    let mut cur: Vec<char> = Vec::new();
    let mut i: usize = lo;
    assert(content.subrange(0, 0) =~= Seq::<char>::empty());
    assert(views_of(pieces@).push(cur@) =~= seq![Seq::<char>::empty()]);
    while i < hi
        invariant
            lo <= i <= hi <= s@.len(),
            content == s@.subrange(lo as int, hi as int),
            views_of(pieces@).push(cur@) == split_commas(content.subrange(0, i - lo)),
        decreases hi - i,
    {
        let ghost prefix = content.subrange(0, i - lo + 1);
        assert(prefix.drop_last() =~= content.subrange(0, i - lo));
        assert(prefix.last() == s@[i as int]);
        proof {
            lemma_split_nonempty(prefix.drop_last());
        }
        let ghost before = views_of(pieces@).push(cur@);
        if s[i] == ',' {
                        let done = cur;
            pieces.push(done);
            assert(views_of(pieces@) =~= before);
            cur = Vec::new();
            assert(views_of(pieces@).push(cur@) =~= before.push(Seq::<char>::empty()));
        } else {
            cur.push(s[i]);
            assert(views_of(pieces@).push(cur@) =~= before.update(
                before.len() - 1,
                before.last().push(s@[i as int]),
            ));
        }
        i = i + 1;
    }
    assert(content.subrange(0, hi - lo) =~= content);
    let ghost before = views_of(pieces@).push(cur@);
    pieces.push(cur);
    assert(views_of(pieces@) =~= before);
    pieces
}

/// Parses one digest token `(n1,n2,n3,n4,n5)`; whitespace around the token
/// and around each number is ignored.
pub fn parse_digest(input: &str) -> (r: Result<Digest, Error>)
    ensures
        digest_view_result(r) == digest_result(input@),
{
    let s = chars_of(input);
    let (lo, hi) = trim_bounds(&s);
    let ghost t = s@.subrange(lo as int, hi as int);
    if lo == hi || s[lo] != '(' {
        return Err(Error::Format(FormatError::MissingOpeningParenthesis));
    }
    if hi - lo < 2 || s[hi - 1] != ')' {
        return Err(Error::Format(FormatError::MissingClosingParenthesis));
    }
    assert(t.subrange(1, t.len() - 1) =~= s@.subrange(lo + 1, hi - 1));
    let pieces = split_on_commas(&s, lo + 1, hi - 1);
    if pieces.len() != 5 {
        return Err(Error::Format(FormatError::WrongElementCount));
    }
    let ghost ps = views_of(pieces@);
    let mut elements: [u64; 5] = [0; 5];
    let mut k: usize = 0;
    assert(ps.subrange(0, 0) =~= Seq::<Seq<char>>::empty());
    assert(elements@.subrange(0, 0) =~= Seq::<u64>::empty());
    while k < 5
        invariant
            k <= 5,
            pieces.len() == 5,
            ps == views_of(pieces@),
            t == trim(input@),
            t.len() >= 2 && t[0] == '(' && t.last() == ')',
            ps == split_commas(t.subrange(1, t.len() - 1)),
            parse_all(ps.subrange(0, k as int)) == Ok::<Seq<u64>, ParseError>(
                elements@.subrange(0, k as int),
            ),
        decreases 5 - k,
    {
        assert(ps.subrange(0, k + 1).drop_last() =~= ps.subrange(0, k as int));
        assert(ps[k as int] == pieces[k as int]@);
        assert(ps.subrange(0, k + 1).last() == ps[k as int]);
        match parse_number_chars(&pieces[k]) {
            Err(e) => {
                proof {
                    assert(parse_all(ps.subrange(0, k + 1)) == Err::<Seq<u64>, ParseError>(e));
                    lemma_parse_all_fails_later(ps, k as int + 1);
                }
                return Err(Error::Parse(e));
            },
            Ok(v) => {
                let ghost old_elements = elements@;
                elements[k] = v;
                assert(elements@.subrange(0, k + 1) =~= old_elements.subrange(0, k as int).push(v));
            },
        }
        k = k + 1;
    }
    assert(ps.subrange(0, 5) =~= ps);
    assert(elements@.subrange(0, 5) =~= elements@);
    Ok(Digest { elements })
}

/// Once a prefix of the pieces fails, parsing all of them fails the same way.
proof fn lemma_parse_all_fails_later(ps: Seq<Seq<char>>, k: int)
    requires
        0 <= k <= ps.len(),
        parse_all(ps.subrange(0, k)) is Err,
    ensures
        parse_all(ps) == parse_all(ps.subrange(0, k)),
    decreases ps.len() - k,
{
    if k == ps.len() {
        assert(ps.subrange(0, k) =~= ps);
    } else {
        assert(ps.subrange(0, k + 1).drop_last() =~= ps.subrange(0, k));
        lemma_parse_all_fails_later(ps, k + 1);
    }
}

/// The pieces joined with a comma between neighbours.
pub open spec fn comma_joined(pieces: Seq<Seq<char>>) -> Seq<char>
    decreases pieces.len(),
{
    if pieces.len() == 0 {
        Seq::<char>::empty()
    } else if pieces.len() == 1 {
        pieces[0]
    } else {
        comma_joined(pieces.drop_last()) + seq![','] + pieces.last()
    }
}

/// `(` followed by the pieces joined with commas, followed by `)`.
pub open spec fn group_text(pieces: Seq<Seq<char>>) -> Seq<char> {
    seq!['('] + comma_joined(pieces) + seq![')']
}

/// The decimal text `(a,b,c,d,e)` of a digest's elements.
pub open spec fn tuple_text(elements: Seq<u64>) -> Seq<char> {
    group_text(elements.map_values(|v: u64| decimal_text(v as nat)))
}

pub open spec fn comma_free(s: Seq<char>) -> bool {
    forall|i: int| 0 <= i < s.len() ==> #[trigger] s[i] != ','
}

proof fn lemma_split_append_comma_free(a: Seq<char>, b: Seq<char>)
    requires
        comma_free(b),
    ensures
        split_commas(a + b) == split_commas(a).update(
            split_commas(a).len() - 1,
            split_commas(a).last() + b,
        ),
    decreases b.len(),
{
    lemma_split_nonempty(a);
    if b.len() == 0 {
        assert(a + b =~= a);
        assert(split_commas(a).last() + b =~= split_commas(a).last());
        assert(split_commas(a).update(split_commas(a).len() - 1, split_commas(a).last())
            =~= split_commas(a));
    } else {
        let c = b.last();
        assert(c != ',') by {
            assert(b[b.len() - 1] != ',');
        }
        assert(comma_free(b.drop_last())) by {
            assert forall|i: int| 0 <= i < b.drop_last().len() implies #[trigger] b.drop_last()[i]
                != ',' by {
                assert(b.drop_last()[i] == b[i]);
            }
        }
        lemma_split_append_comma_free(a, b.drop_last());
        assert((a + b).drop_last() =~= a + b.drop_last());
        assert((a + b).last() == c);
        assert((split_commas(a).last() + b.drop_last()).push(c) =~= split_commas(a).last() + b);
        assert(split_commas(a + b) =~= split_commas(a).update(
            split_commas(a).len() - 1,
            split_commas(a).last() + b,
        ));
    }
}

/// Splitting comma-joined pieces that hold no comma gives the pieces back.
pub proof fn lemma_split_comma_joined(pieces: Seq<Seq<char>>)
    requires
        pieces.len() > 0,
        forall|i: int| 0 <= i < pieces.len() ==> comma_free(#[trigger] pieces[i]),
    ensures
        split_commas(comma_joined(pieces)) == pieces,
    decreases pieces.len(),
{
    let last = pieces.last();
    assert(comma_free(pieces[pieces.len() - 1]));
    if pieces.len() == 1 {
        lemma_split_append_comma_free(Seq::<char>::empty(), last);
        assert(Seq::<char>::empty() + last =~= last);
        assert(seq![Seq::<char>::empty()].update(0, Seq::<char>::empty() + last) =~= pieces);
    } else {
        let front = pieces.drop_last();
        assert forall|i: int| 0 <= i < front.len() implies comma_free(#[trigger] front[i]) by {
            assert(front[i] == pieces[i]);
        }
        lemma_split_comma_joined(front);
        let head = comma_joined(front) + seq![','];
        assert(head.drop_last() =~= comma_joined(front));
        assert(split_commas(head) == front.push(Seq::<char>::empty()));
        lemma_split_append_comma_free(head, last);
        assert(Seq::<char>::empty() + last =~= last);
        assert(front.push(Seq::<char>::empty()).update(front.len() as int, last) =~= pieces);
    }
}

proof fn lemma_parse_all_ok(pieces: Seq<Seq<char>>, values: Seq<u64>)
    requires
        pieces.len() == values.len(),
        forall|i: int| 0 <= i < pieces.len() ==> number_result(#[trigger] pieces[i]) == Ok::<u64, ParseError>(values[i]),
    ensures
        parse_all(pieces) == Ok::<Seq<u64>, ParseError>(values),
    decreases pieces.len(),
{
    if pieces.len() == 0 {
        assert(values =~= Seq::<u64>::empty());
    } else {
        let n = pieces.len() - 1;
        assert forall|i: int| 0 <= i < n implies number_result(#[trigger] pieces.drop_last()[i])
            == Ok::<u64, ParseError>(values.drop_last()[i]) by {
            assert(pieces.drop_last()[i] == pieces[i]);
        }
        lemma_parse_all_ok(pieces.drop_last(), values.drop_last());
        assert(number_result(pieces[n]) == Ok::<u64, ParseError>(values[n]));
        assert(values.drop_last().push(values[n]) =~= values);
    }
}

proof fn lemma_group_inner(pieces: Seq<Seq<char>>)
    ensures
        trim(group_text(pieces)) == group_text(pieces),
        group_text(pieces).subrange(1, group_text(pieces).len() - 1) == comma_joined(pieces),
{
    let t = group_text(pieces);
    assert(t[0] == '(' && t.last() == ')');
    lemma_trim_unchanged(t);
    assert(t.subrange(1, t.len() - 1) =~= comma_joined(pieces));
}

/// Five comma-free numeric tokens, each of which parses, written between
/// parentheses and separated by commas, parse to a digest of their five
/// values in the same order, whatever base each token is written in.
pub proof fn lemma_group_parses(pieces: Seq<Seq<char>>, values: Seq<u64>)
    requires
        pieces.len() == 5,
        values.len() == 5,
        forall|i: int| 0 <= i < 5 ==> comma_free(#[trigger] pieces[i]),
        forall|i: int| 0 <= i < 5 ==> number_result(#[trigger] pieces[i]) == Ok::<u64, ParseError>(values[i]),
    ensures
        digest_result(group_text(pieces)) == Ok::<Seq<u64>, Error>(values),
{
    lemma_group_inner(pieces);
    lemma_split_comma_joined(pieces);
    lemma_parse_all_ok(pieces, values);
}

/// Writing a digest's five elements as `(a,b,c,d,e)` and parsing that text
/// gives back the same five elements in the same order.
pub proof fn lemma_digest_round_trip(elements: Seq<u64>)
    requires
        elements.len() == 5,
    ensures
        digest_result(tuple_text(elements)) == Ok::<Seq<u64>, Error>(elements),
{
    let pieces = elements.map_values(|v: u64| decimal_text(v as nat));
    assert forall|i: int| 0 <= i < 5 implies comma_free(#[trigger] pieces[i])
        && number_result(pieces[i]) == Ok::<u64, ParseError>(elements[i]) by {
        lemma_decimal_text(elements[i] as nat);
        lemma_decimal_parses(pieces[i]);
        assert forall|j: int| 0 <= j < pieces[i].len() implies #[trigger] pieces[i][j] != ',' by {
            assert(crate::number::is_digit(pieces[i][j], 10));
        }
    }
    lemma_group_parses(pieces, elements);
}

/// A token that, once trimmed, opens with `(` but does not close with `)`
/// is refused for its missing closing parenthesis.
pub proof fn lemma_missing_closing_parenthesis(s: Seq<char>)
    requires
        trim(s).len() > 0,
        trim(s)[0] == '(',
        trim(s).last() != ')',
    ensures
        digest_result(s) == Err::<Seq<u64>, Error>(
            Error::Format(FormatError::MissingClosingParenthesis),
        ),
{
}

/// A parenthesized group of comma-free tokens that are not five in number
/// is refused for its element count, whatever the tokens hold.
pub proof fn lemma_wrong_element_count(pieces: Seq<Seq<char>>)
    requires
        pieces.len() > 0,
        pieces.len() != 5,
        forall|i: int| 0 <= i < pieces.len() ==> comma_free(#[trigger] pieces[i]),
    ensures
        digest_result(group_text(pieces)) == Err::<Seq<u64>, Error>(
            Error::Format(FormatError::WrongElementCount),
        ),
{
    lemma_group_inner(pieces);
    lemma_split_comma_joined(pieces);
}

/// Whitespace before and after a digest token does not change what it
/// parses to.
pub proof fn lemma_digest_ignores_surrounding_white(pre: Seq<char>, s: Seq<char>, post: Seq<char>)
    requires
        all_white_space(pre),
        all_white_space(post),
    ensures
        digest_result(pre + s + post) == digest_result(s),
{
    lemma_trim_ignores_surrounding_white(pre, s, post);
}

} // verus!
