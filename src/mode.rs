//! The two hashing modes: from the raw input tokens to the two output lines.

use vstd::prelude::*;
use crate::digest::{digest_result, parse_digest, Digest};
use crate::error::{Error, UsageError};
use crate::tip5::{digest_text, hash_pair, hash_varlen, render, tip5_pair, tip5_varlen};

verus! {

/// How the input digests are hashed.
#[derive(Clone, Copy, Debug, PartialEq, Eq, Structural)]
pub enum Mode {
    /// Exactly two digests, hashed as a pair.
    Pair,
    /// Two or more digests, whose elements are hashed as one sequence.
    Varlen,
}

/// The two output lines of a successful request.
pub struct Report {
    /// Names the mode and the input tokens.
    pub echo: String,
    /// Holds the canonical text of the resulting digest.
    pub result: String,
}

/// The character sequences of a vector of strings.
pub open spec fn texts_of(v: Seq<String>) -> Seq<Seq<char>> {
    v.map_values(|s: String| s@)
}

/// The element sequences of a vector of digests.
pub open spec fn elements_of(v: Seq<Digest>) -> Seq<Seq<u64>> {
    v.map_values(|d: Digest| d@)
}

/// The elements of all `ds`, digest after digest, each in its own order.
pub open spec fn flatten(ds: Seq<Seq<u64>>) -> Seq<u64>
    decreases ds.len(),
{
    if ds.len() == 0 {
        Seq::<u64>::empty()
    } else {
        flatten(ds.drop_last()) + ds.last()
    }
}

/// The items joined with `", "` between neighbours.
pub open spec fn joined(items: Seq<Seq<char>>) -> Seq<char>
    decreases items.len(),
{
    if items.len() == 0 {
        Seq::<char>::empty()
    } else if items.len() == 1 {
        items[0]
    } else {
        joined(items.drop_last()) + ", "@ + items.last()
    }
}

pub open spec fn result_line_of(text: Seq<char>) -> Seq<char> {
    "Result: Digest("@ + text + ")"@
}

pub open spec fn pair_echo_of(a: Seq<char>, b: Seq<char>) -> Seq<char> {
    "Hash pair mode Digest"@ + a + ", Digest"@ + b
}

pub open spec fn varlen_echo_of(items: Seq<Seq<char>>) -> Seq<char> {
    "Hash varlen mode Digest"@ + joined(items)
}

/// Parses every token in order; the first failure is the result.
pub open spec fn digests_result(items: Seq<Seq<char>>) -> Result<Seq<Seq<u64>>, Error>
    decreases items.len(),
{
    if items.len() == 0 {
        Ok(Seq::<Seq<u64>>::empty())
    } else {
        match digests_result(items.drop_last()) {
            Err(e) => Err(e),
            Ok(ds) => match digest_result(items.last()) {
                Err(e) => Err(e),
                Ok(d) => Ok(ds.push(d)),
            },
        }
    }
}

/// The two output lines, or the error, of a pair-mode request.
pub open spec fn pair_result(items: Seq<Seq<char>>) -> Result<(Seq<char>, Seq<char>), Error> {
    if items.len() != 2 {
        Err(Error::Usage(UsageError::PairArity))
    } else {
        match digest_result(items[0]) {
            Err(e) => Err(e),
            Ok(a) => match digest_result(items[1]) {
                Err(e) => Err(e),
                Ok(b) => Ok(
                    (pair_echo_of(items[0], items[1]), result_line_of(digest_text(tip5_pair(a, b)))),
                ),
            },
        }
    }
}

/// The two output lines, or the error, of a varlen-mode request.
pub open spec fn varlen_result(items: Seq<Seq<char>>) -> Result<(Seq<char>, Seq<char>), Error> {
    if items.len() < 2 {
        Err(Error::Usage(UsageError::VarlenArity))
    } else {
        match digests_result(items) {
            Err(e) => Err(e),
            Ok(ds) => Ok(
                (varlen_echo_of(items), result_line_of(digest_text(tip5_varlen(flatten(ds))))),
            ),
        }
    }
}

pub open spec fn run_result(mode: Mode, items: Seq<Seq<char>>) -> Result<(Seq<char>, Seq<char>), Error> {
    match mode {
        Mode::Pair => pair_result(items),
        Mode::Varlen => varlen_result(items),
    }
}

/// A report seen through the text of its two lines.
pub open spec fn report_view(r: Result<Report, Error>) -> Result<(Seq<char>, Seq<char>), Error> {
    match r {
        Ok(rep) => Ok((rep.echo@, rep.result@)),
        Err(e) => Err(e),
    }
}

/// `Result: Digest(<text>)`.
pub fn result_line(text: &str) -> (r: String)
    ensures
        r@ == result_line_of(text@),
{
    let mut r = String::from_str("Result: Digest(");
    r.append(text);
    r.append(")");
    r
}

/// `Hash pair mode Digest<a>, Digest<b>`.
pub fn pair_echo(a: &str, b: &str) -> (r: String)
    ensures
        r@ == pair_echo_of(a@, b@),
{
    let mut r = String::from_str("Hash pair mode Digest");
    r.append(a);
    r.append(", Digest");
    r.append(b);
    r
}

/// `Hash varlen mode Digest` followed by the tokens, separated by `", "`.
pub fn varlen_echo(inputs: &Vec<String>) -> (r: String)
    ensures
        r@ == varlen_echo_of(texts_of(inputs@)),
{
    let ghost items = texts_of(inputs@);
    let mut r = String::from_str("Hash varlen mode Digest");
    let mut i: usize = 0;
    while i < inputs.len()
        invariant
            i <= inputs.len(),
            items == texts_of(inputs@),
            r@ == "Hash varlen mode Digest"@ + joined(items.subrange(0, i as int)),
        decreases inputs.len() - i,
    {
        let ghost prefix = items.subrange(0, i + 1);
        assert(prefix.drop_last() =~= items.subrange(0, i as int));
        if i > 0 {
            r.append(", ");
        } else {
            assert(joined(items.subrange(0, 0)) =~= Seq::<char>::empty());
        }
        r.append(inputs[i].as_str());
        proof {
            if i == 0 {
                assert(r@ =~= "Hash varlen mode Digest"@ + joined(prefix));
            } else {
                assert(r@ =~= "Hash varlen mode Digest"@ + joined(prefix));
            }
        }
        i = i + 1;
    }
    assert(items.subrange(0, inputs.len() as int) =~= items);
    r
}

/// The elements of all digests, digest after digest, each in its own order.
pub fn concat_elements(digests: &Vec<Digest>) -> (r: Vec<u64>)
    ensures
        r@ == flatten(elements_of(digests@)),
{
    let ghost ds = elements_of(digests@);
    let mut r: Vec<u64> = Vec::new();
    let mut i: usize = 0;
    while i < digests.len()
        invariant
            i <= digests.len(),
            ds == elements_of(digests@),
            r@ == flatten(ds.subrange(0, i as int)),
        decreases digests.len() - i,
    {
        assert(ds.subrange(0, i + 1).drop_last() =~= ds.subrange(0, i as int));
        let vals = digests[i].values();
        let mut j: usize = 0;
        let ghost start = r@;
        while j < 5
            invariant
                j <= 5,
                r@ == start + vals@.subrange(0, j as int),
            decreases 5 - j,
        {
            r.push(vals[j]);
            assert(r@ =~= start + vals@.subrange(0, j + 1));
            j = j + 1;
        }
        assert(vals@.subrange(0, 5) =~= vals@);
        assert(r@ =~= flatten(ds.subrange(0, i + 1)));
        i = i + 1;
    }
    assert(ds.subrange(0, digests.len() as int) =~= ds);
    r
}

/// Once a prefix of the tokens fails, parsing all of them fails the same way.
proof fn lemma_digests_fail_later(items: Seq<Seq<char>>, k: int)
    requires
        0 <= k <= items.len(),
        digests_result(items.subrange(0, k)) is Err,
    ensures
        digests_result(items) == digests_result(items.subrange(0, k)),
    decreases items.len() - k,
{
    if k == items.len() {
        assert(items.subrange(0, k) =~= items);
    } else {
        assert(items.subrange(0, k + 1).drop_last() =~= items.subrange(0, k));
        lemma_digests_fail_later(items, k + 1);
    }
}

/// Parses every token into a digest, in order; the first failure aborts.
pub fn parse_digests(inputs: &Vec<String>) -> (r: Result<Vec<Digest>, Error>)
    ensures
        match r {
            Ok(ds) => digests_result(texts_of(inputs@)) == Ok::<Seq<Seq<u64>>, Error>(
                elements_of(ds@),
            ),
            Err(e) => digests_result(texts_of(inputs@)) == Err::<Seq<Seq<u64>>, Error>(e),
        },
{
    let ghost items = texts_of(inputs@);
    let mut ds: Vec<Digest> = Vec::new();
    let mut i: usize = 0;
    assert(items.subrange(0, 0) =~= Seq::<Seq<char>>::empty());
    assert(elements_of(ds@) =~= Seq::<Seq<u64>>::empty());
    while i < inputs.len()
        invariant
            i <= inputs.len(),
            items == texts_of(inputs@),
            digests_result(items.subrange(0, i as int)) == Ok::<Seq<Seq<u64>>, Error>(
                elements_of(ds@),
            ),
        decreases inputs.len() - i,
    {
        let ghost prefix = items.subrange(0, i + 1);
        assert(prefix.drop_last() =~= items.subrange(0, i as int));
        assert(prefix.last() == inputs@[i as int]@);
        match parse_digest(inputs[i].as_str()) {
            Err(e) => {
                proof {
                    assert(digests_result(prefix) == Err::<Seq<Seq<u64>>, Error>(e));
                    lemma_digests_fail_later(items, i + 1);
                }
                return Err(e);
            },
            Ok(d) => {
                let ghost before = elements_of(ds@);
                ds.push(d);
                assert(elements_of(ds@) =~= before.push(d@));
            },
        }
        i = i + 1;
    }
    assert(items.subrange(0, inputs.len() as int) =~= items);
    Ok(ds)
}

/// Hashes exactly two digest tokens as a pair.
pub fn hash_pair_mode(inputs: &Vec<String>) -> (r: Result<Report, Error>)
    ensures
        report_view(r) == pair_result(texts_of(inputs@)),
        inputs.len() != 2 ==> report_view(r) == Err::<(Seq<char>, Seq<char>), Error>(
            Error::Usage(UsageError::PairArity),
        ),
{
    if inputs.len() != 2 {
        return Err(Error::Usage(UsageError::PairArity));
    }
    let ghost items = texts_of(inputs@);
    assert(items[0] == inputs@[0]@ && items[1] == inputs@[1]@);
    let a = match parse_digest(inputs[0].as_str()) {
        Ok(d) => d,
        Err(e) => return Err(e),
    };
    let b = match parse_digest(inputs[1].as_str()) {
        Ok(d) => d,
        Err(e) => return Err(e),
    };
    let echo = pair_echo(inputs[0].as_str(), inputs[1].as_str());
    let hashed = hash_pair(&a, &b);
    let text = render(&hashed);
    let result = result_line(text.as_str());
    Ok(Report { echo, result })
}

/// Hashes the elements of two or more digest tokens as one sequence.
pub fn hash_varlen_mode(inputs: &Vec<String>) -> (r: Result<Report, Error>)
    ensures
        report_view(r) == varlen_result(texts_of(inputs@)),
        inputs.len() < 2 ==> report_view(r) == Err::<(Seq<char>, Seq<char>), Error>(
            Error::Usage(UsageError::VarlenArity),
        ),
{
    if inputs.len() < 2 {
        return Err(Error::Usage(UsageError::VarlenArity));
    }
    let digests = match parse_digests(inputs) {
        Ok(ds) => ds,
        Err(e) => return Err(e),
    };
    let elements = concat_elements(&digests);
    let echo = varlen_echo(inputs);
    let hashed = hash_varlen(&elements);
    let text = render(&hashed);
    let result = result_line(text.as_str());
    Ok(Report { echo, result })
}

/// Runs one hashing request in the given mode.
pub fn run(mode: Mode, inputs: &Vec<String>) -> (r: Result<Report, Error>)
    ensures
        report_view(r) == run_result(mode, texts_of(inputs@)),
{
    match mode {
        Mode::Pair => hash_pair_mode(inputs),
        Mode::Varlen => hash_varlen_mode(inputs),
    }
}

/// Pair mode refuses any number of tokens other than two, and varlen mode
/// fewer than two, before looking at what the tokens hold.
pub proof fn lemma_arity_refused(items: Seq<Seq<char>>)
    ensures
        items.len() != 2 ==> run_result(Mode::Pair, items) == Err::<(Seq<char>, Seq<char>), Error>(
            Error::Usage(UsageError::PairArity),
        ),
        items.len() < 2 ==> run_result(Mode::Varlen, items) == Err::<(Seq<char>, Seq<char>), Error>(
            Error::Usage(UsageError::VarlenArity),
        ),
{
}

/// Concatenation keeps every element in place: element `j` of digest `i`
/// stands at position `5 * i + j`, and nothing else is added.
pub proof fn lemma_flatten_positions(ds: Seq<Seq<u64>>, i: int, j: int)
    requires
        forall|k: int| 0 <= k < ds.len() ==> (#[trigger] ds[k]).len() == 5,
        0 <= i < ds.len(),
        0 <= j < 5,
    ensures
        flatten(ds).len() == 5 * ds.len(),
        flatten(ds)[5 * i + j] == ds[i][j],
    decreases ds.len(),
{
    lemma_flatten_len(ds);
    let front = ds.drop_last();
    assert forall|k: int| 0 <= k < front.len() implies (#[trigger] front[k]).len() == 5 by {
        assert(front[k] == ds[k]);
    }
    lemma_flatten_len(front);
    assert(ds.last() == ds[ds.len() - 1]);
    if i < ds.len() - 1 {
        assert(front[i] == ds[i]);
        lemma_flatten_positions(front, i, j);
    }
}

proof fn lemma_flatten_len(ds: Seq<Seq<u64>>)
    requires
        forall|k: int| 0 <= k < ds.len() ==> (#[trigger] ds[k]).len() == 5,
    ensures
        flatten(ds).len() == 5 * ds.len(),
    decreases ds.len(),
{
    if ds.len() > 0 {
        let front = ds.drop_last();
        assert forall|k: int| 0 <= k < front.len() implies (#[trigger] front[k]).len() == 5 by {
            assert(front[k] == ds[k]);
        }
        lemma_flatten_len(front);
        assert(ds[ds.len() - 1].len() == 5);
    }
}

} // verus!
