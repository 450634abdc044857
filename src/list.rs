use vstd::prelude::*;

use crate::error::Error;
use crate::wire::{holds, lemma_holds_split};

verus! {

/// A reader of one value at a position, as a spec function.
pub type Parser<T> = spec_fn(Seq<u8>, int) -> Result<(T, int), Error>;

/// A writer of one value, as a spec function.
pub type Encoder<T> = spec_fn(T) -> Seq<u8>;

/// `f` reads back what `g` writes, for every value that `wf` admits, whatever follows it.
pub open spec fn inverts<T>(f: Parser<T>, g: Encoder<T>, wf: spec_fn(T) -> bool) -> bool {
    forall|x: T, s: Seq<u8>, p: int|
        wf(x) && #[trigger] holds(s, p, g(x)) ==> #[trigger] f(s, p) == Ok::<(T, int), Error>(
            (x, p + g(x).len()),
        )
}

/// Reads `k` more values with `f`, appending them to `acc`.
pub open spec fn parse_list_from<T>(f: Parser<T>, s: Seq<u8>, p: int, k: nat, acc: Seq<T>) -> Result<
    (Seq<T>, int),
    Error,
>
    decreases k,
{
    if k == 0 {
        Ok((acc, p))
    } else {
        match f(s, p) {
            Ok((x, q)) => parse_list_from(f, s, q, (k - 1) as nat, acc.push(x)),
            Err(e) => Err(e),
        }
    }
}

/// `k` values, one after the other.
pub open spec fn parse_list<T>(f: Parser<T>, s: Seq<u8>, p: int, k: nat) -> Result<(Seq<T>, int), Error> {
    parse_list_from(f, s, p, k, Seq::empty())
}

/// The encodings of `xs`, one after the other.
pub open spec fn enc_list<T>(g: Encoder<T>, xs: Seq<T>) -> Seq<u8>
    decreases xs.len(),
{
    if xs.len() == 0 {
        Seq::empty()
    } else {
        enc_list(g, xs.drop_last()) + g(xs.last())
    }
}

pub proof fn lemma_enc_list_front<T>(g: Encoder<T>, xs: Seq<T>)
    requires
        xs.len() > 0,
    ensures
        enc_list(g, xs) == g(xs[0]) + enc_list(g, xs.drop_first()),
    decreases xs.len(),
{
    if xs.len() == 1 {
        assert(xs.drop_last() =~= Seq::<T>::empty());
        assert(xs.drop_first() =~= Seq::<T>::empty());
        assert(enc_list(g, xs) =~= g(xs[0]) + enc_list(g, xs.drop_first()));
    } else {
        lemma_enc_list_front(g, xs.drop_last());
        assert(xs.drop_last().drop_first() =~= xs.drop_first().drop_last());
        assert(xs.drop_first().last() == xs.last());
        assert(xs.drop_last()[0] == xs[0]);
        assert(enc_list(g, xs) =~= g(xs[0]) + enc_list(g, xs.drop_first()));
    }
}

pub proof fn lemma_enc_list_push<T>(g: Encoder<T>, xs: Seq<T>, x: T)
    ensures
        enc_list(g, xs.push(x)) == enc_list(g, xs) + g(x),
{
    assert(xs.push(x).drop_last() =~= xs);
}

/// A list reads back as written when each element does.
pub proof fn lemma_list_round_trip<T>(
    f: Parser<T>,
    g: Encoder<T>,
    wf: spec_fn(T) -> bool,
    xs: Seq<T>,
    acc: Seq<T>,
    s: Seq<u8>,
    p: int,
)
    requires
        inverts(f, g, wf),
        forall|i: int| 0 <= i < xs.len() ==> wf(#[trigger] xs[i]),
        holds(s, p, enc_list(g, xs)),
    ensures
        parse_list_from(f, s, p, xs.len(), acc) == Ok::<(Seq<T>, int), Error>(
            (acc + xs, p + enc_list(g, xs).len()),
        ),
    decreases xs.len(),
{
    if xs.len() == 0 {
        assert(acc + xs =~= acc);
    } else {
        lemma_enc_list_front(g, xs);
        lemma_holds_split(s, p, g(xs[0]), enc_list(g, xs.drop_first()));
        assert(wf(xs[0]));
        assert(f(s, p) == Ok::<(T, int), Error>((xs[0], p + g(xs[0]).len())));
        assert forall|i: int| 0 <= i < xs.drop_first().len() implies wf(
            #[trigger] xs.drop_first()[i],
        ) by {
            assert(xs.drop_first()[i] == xs[i + 1]);
        }
        lemma_list_round_trip(f, g, wf, xs.drop_first(), acc.push(xs[0]), s, p + g(xs[0]).len());
        assert(acc.push(xs[0]) + xs.drop_first() =~= acc + xs);
    }
}

} // verus!
