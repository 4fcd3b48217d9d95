//! Rows of values behind a length prefix: the wire form of arrays.
use vstd::prelude::*;

use crate::codec::Codec;
use crate::cursor::Cursor;
use crate::decode::{
    holds_at, lemma_holds_at_split, Decode, DecodeError, DecodeResult, Parsed,
};
use crate::encode::Encode;
use crate::length_prefix::{
    count_of_u64, get_len, len_fits, lemma_parse_len_extends, lemma_parse_len_in_bounds,
    lemma_parse_len_round_trip, parse_len, put_len, wire_len, Prefix,
};
use crate::model::{models, Model};

verus! {

/// The wire forms of the items, one behind the other.
pub open spec fn wire_items<T: Encode>(items: Seq<T::M>) -> Seq<u8>
    decreases items.len(),
{
    if items.len() == 0 {
        Seq::empty()
    } else {
        wire_items::<T>(items.drop_last()) + T::wire(items.last())
    }
}

/// The `n` items that stand one behind the other from offset `at` on.
pub open spec fn parse_items<T: Decode>(s: Seq<u8>, at: int, n: nat) -> Parsed<Seq<T::M>>
    decreases n,
{
    if n == 0 {
        Ok((Seq::empty(), at))
    } else {
        match parse_items::<T>(s, at, (n - 1) as nat) {
            Err(e) => Err(e),
            Ok((items, mid)) => match T::parse(s, mid) {
                Err(e) => Err(e),
                Ok((v, end)) => Ok((items.push(v), end)),
            },
        }
    }
}

pub open spec fn all_encodable<T: Encode>(items: Seq<T::M>) -> bool {
    forall|i: int| 0 <= i < items.len() ==> T::encodable(#[trigger] items[i])
}

pub open spec fn all_canonical<T: Codec>(items: Seq<T::M>) -> bool {
    forall|i: int| 0 <= i < items.len() ==> T::canonical(#[trigger] items[i])
}

/// An array behind its count; `None` is the null array.
pub open spec fn wire_array<T: Encode>(kind: Prefix, v: Option<Seq<T::M>>) -> Seq<u8> {
    match v {
        None => wire_len(kind, None),
        Some(items) => wire_len(kind, Some(items.len())) + wire_items::<T>(items),
    }
}

pub open spec fn array_encodable<T: Encode>(kind: Prefix, v: Option<Seq<T::M>>) -> bool {
    match v {
        None => true,
        Some(items) => len_fits(kind, items.len()) && all_encodable::<T>(items),
    }
}

pub open spec fn array_canonical<T: Codec>(v: Option<Seq<T::M>>) -> bool {
    match v {
        None => true,
        Some(items) => all_canonical::<T>(items),
    }
}

/// The array that a count at offset `at` announces and the bytes behind it hold.
#[verifier::opaque]
pub open spec fn parse_array<T: Decode>(kind: Prefix, s: Seq<u8>, at: int) -> Parsed<
    Option<Seq<T::M>>,
> {
    match parse_len(kind, s, at) {
        Ok((None, next)) => Ok((None, next)),
        Ok((Some(n), next)) => match parse_items::<T>(s, next, n) {
            Ok((items, end)) => Ok((Some(items), end)),
            Err(e) => Err(e),
        },
        Err(e) => Err(e),
    }
}

pub open spec fn array_model<T: Model>(items: Option<Vec<T>>) -> Option<Seq<T::M>> {
    match items {
        None => None,
        Some(v) => Some(models(v@)),
    }
}

pub proof fn lemma_parse_items_in_bounds<T: Decode>(s: Seq<u8>, at: int, n: nat)
    requires
        0 <= at <= s.len(),
    ensures
        parse_items::<T>(s, at, n) matches Ok((items, end)) ==> at <= end <= s.len()
            && items.len() == n,
    decreases n,
{
    if n > 0 {
        lemma_parse_items_in_bounds::<T>(s, at, (n - 1) as nat);
        if let Ok((items, mid)) = parse_items::<T>(s, at, (n - 1) as nat) {
            T::lemma_parse_in_bounds(s, mid);
        }
    }
}

/// Once an item fails, the row fails with it, however long it was meant to be.
pub proof fn lemma_parse_items_error_persists<T: Decode>(s: Seq<u8>, at: int, i: nat, n: nat)
    requires
        i <= n,
        parse_items::<T>(s, at, i) is Err,
    ensures
        parse_items::<T>(s, at, n) == parse_items::<T>(s, at, i),
    decreases n,
{
    if i < n {
        lemma_parse_items_error_persists::<T>(s, at, i, (n - 1) as nat);
    }
}

pub proof fn lemma_parse_items_extends<T: Decode>(s: Seq<u8>, t: Seq<u8>, at: int, n: nat)
    requires
        s.is_prefix_of(t),
    ensures
        !(parse_items::<T>(s, at, n) matches Err(DecodeError::Incomplete)) ==> parse_items::<T>(
            t,
            at,
            n,
        ) == parse_items::<T>(s, at, n),
    decreases n,
{
    if n > 0 {
        lemma_parse_items_extends::<T>(s, t, at, (n - 1) as nat);
        if let Ok((items, mid)) = parse_items::<T>(s, at, (n - 1) as nat) {
            T::lemma_parse_extends(s, t, mid);
        }
    }
}

/// Wherever the wire forms of a row of items stand, the parse reads the row.
pub proof fn lemma_parse_items_round_trip<T: Codec>(items: Seq<T::M>, s: Seq<u8>, at: int)
    requires
        all_encodable::<T>(items),
        all_canonical::<T>(items),
        holds_at(s, at, wire_items::<T>(items)),
    ensures
        parse_items::<T>(s, at, items.len()) == Ok::<(Seq<T::M>, int), DecodeError>(
            (items, at + wire_items::<T>(items).len()),
        ),
    decreases items.len(),
{
    if items.len() > 0 {
        let front = items.drop_last();
        assert forall|i: int| 0 <= i < front.len() implies T::encodable(#[trigger] front[i])
            && T::canonical(front[i]) by {
            assert(front[i] == items[i]);
        }
        assert(T::encodable(items[items.len() - 1]) && T::canonical(items[items.len() - 1]));
        lemma_holds_at_split(s, at, wire_items::<T>(front), T::wire(items.last()));
        lemma_parse_items_round_trip::<T>(front, s, at);
        T::lemma_round_trip(items.last(), s, at + wire_items::<T>(front).len());
        assert(front.push(items.last()) =~= items);
    } else {
        assert(items =~= Seq::<T::M>::empty());
    }
}

pub proof fn lemma_parse_array_in_bounds<T: Decode>(kind: Prefix, s: Seq<u8>, at: int)
    ensures
        parse_array::<T>(kind, s, at) matches Ok((_, end)) ==> 0 <= at <= end <= s.len(),
{
    reveal(parse_array);
    lemma_parse_len_in_bounds(kind, s, at);
    if let Ok((Some(n), next)) = parse_len(kind, s, at) {
        lemma_parse_items_in_bounds::<T>(s, next, n);
    }
}

pub proof fn lemma_parse_array_extends<T: Decode>(kind: Prefix, s: Seq<u8>, t: Seq<u8>, at: int)
    requires
        s.is_prefix_of(t),
    ensures
        !(parse_array::<T>(kind, s, at) matches Err(DecodeError::Incomplete)) ==> parse_array::<T>(
            kind,
            t,
            at,
        ) == parse_array::<T>(kind, s, at),
{
    reveal(parse_array);
    lemma_parse_len_in_bounds(kind, s, at);
    lemma_parse_len_extends(kind, s, t, at);
    if let Ok((Some(n), next)) = parse_len(kind, s, at) {
        lemma_parse_items_extends::<T>(s, t, next, n);
    }
}

/// Wherever the wire form of an array stands, the parse reads the array.
pub proof fn lemma_parse_array_round_trip<T: Codec>(
    kind: Prefix,
    v: Option<Seq<T::M>>,
    s: Seq<u8>,
    at: int,
)
    requires
        array_encodable::<T>(kind, v),
        array_canonical::<T>(v),
        holds_at(s, at, wire_array::<T>(kind, v)),
    ensures
        parse_array::<T>(kind, s, at) == Ok::<(Option<Seq<T::M>>, int), DecodeError>(
            (v, at + wire_array::<T>(kind, v).len()),
        ),
{
    reveal(parse_array);
    match v {
        None => {
            lemma_parse_len_round_trip(kind, None, s, at);
        },
        Some(items) => {
            let head = wire_len(kind, Some(items.len()));
            lemma_holds_at_split(s, at, head, wire_items::<T>(items));
            lemma_parse_len_round_trip(kind, Some(items.len()), s, at);
            lemma_parse_items_round_trip::<T>(items, s, at + head.len());
        },
    }
}

/// Tells whether an array has a wire form: its count fits the prefix and
/// every item has a wire form.
pub fn array_is_encodable<T: Encode>(kind: Prefix, items: &Option<Vec<T>>) -> (b: bool)
    ensures
        b == array_encodable::<T>(kind, array_model(*items)),
{
    match items {
        None => true,
        Some(v) => {
            let n: u64 = v.len() as u64;
            let fits = match kind {
                Prefix::Int16 => n <= 0x7fff,
                Prefix::Int32 => n <= 0x7fff_ffff,
                Prefix::Compact => n < u64::MAX,
            };
            if !fits {
                return false;
            }
            let ghost all = models(v@);
            let mut i: usize = 0;
            while i < v.len()
                invariant
                    i <= v@.len(),
                    all == models(v@),
                    array_model(*items) == Some(all),
                    forall|j: int| 0 <= j < i ==> T::encodable(#[trigger] all[j]),
                decreases v@.len() - i,
            {
                if !v[i].is_encodable() {
                    proof {
                        assert(!T::encodable(all[i as int]));
                    }
                    return false;
                }
                i = i + 1;
            }
            true
        },
    }
}

/// Writes an array behind its count.
pub fn encode_array<T: Encode>(kind: Prefix, items: &Option<Vec<T>>) -> (out: Vec<u8>)
    requires
        array_encodable::<T>(kind, array_model(*items)),
    ensures
        out@ == wire_array::<T>(kind, array_model(*items)),
{
    match items {
        None => put_len(kind, None),
        Some(v) => {
            let mut out = put_len(kind, Some(v.len()));
            let ghost head = out@;
            let ghost all = models(v@);
            let mut i: usize = 0;
            proof {
                assert(all.take(0) =~= Seq::<T::M>::empty());
                assert(out@ =~= head + wire_items::<T>(all.take(0)));
            }
            while i < v.len()
                invariant
                    i <= v@.len(),
                    all == models(v@),
                    all_encodable::<T>(all),
                    out@ == head + wire_items::<T>(all.take(i as int)),
                decreases v@.len() - i,
            {
                proof {
                    assert(all[i as int] == v@[i as int].model());
                    assert(T::encodable(all[i as int]));
                    assert(all.take(i + 1).drop_last() =~= all.take(i as int));
                    assert(all.take(i + 1).last() == all[i as int]);
                }
                let mut piece = v[i].encode();
                out.append(&mut piece);
                proof {
                    assert(out@ =~= head + wire_items::<T>(all.take(i + 1)));
                }
                i = i + 1;
            }
            proof {
                assert(all.take(v@.len() as int) =~= all);
            }
            out
        },
    }
}

/// Reads an array behind its count; `None` is the null array.
pub fn decode_array<T: Decode>(kind: Prefix, buffer: &mut Cursor) -> (r: DecodeResult<
    Option<Vec<T>>,
>)
    ensures
        final(buffer).content() == old(buffer).content(),
        old(buffer).offset() <= final(buffer).offset() <= old(buffer).content().len(),
        match r {
            Ok(items) => parse_array::<T>(kind, old(buffer).content(), old(buffer).offset())
                == Ok::<(Option<Seq<T::M>>, int), DecodeError>(
                (array_model(items), final(buffer).offset()),
            ),
            Err(e) => parse_array::<T>(kind, old(buffer).content(), old(buffer).offset())
                == Err::<(Option<Seq<T::M>>, int), DecodeError>(e),
        },
{
    let ghost s = buffer.content();
    proof {
        reveal(parse_array);
    }
    match get_len(kind, buffer)? {
        None => Ok(None),
        Some(n) => {
            let ghost start = buffer.offset();
            let mut items: Vec<T> = Vec::new();
            let mut i: u64 = 0;
            proof {
                assert(models(items@) =~= Seq::<T::M>::empty());
            }
            while i < n
                invariant
                    i <= n,
                    buffer.content() == s,
                    s == old(buffer).content(),
                    old(buffer).offset() <= buffer.offset() <= s.len(),
                    parse_len(kind, s, old(buffer).offset()) == Ok::<(Option<nat>, int), DecodeError>(
                        (Some(n as nat), start),
                    ),
                    parse_items::<T>(s, start, i as nat) == Ok::<(Seq<T::M>, int), DecodeError>(
                        (models(items@), buffer.offset()),
                    ),
                decreases n - i,
            {
                match T::decode(buffer) {
                    Ok(item) => {
                        proof {
                            assert(models(items@.push(item)) =~= models(items@).push(
                                item.model(),
                            ));
                        }
                        items.push(item);
                    },
                    Err(e) => {
                        proof {
                            reveal(parse_array);
                            lemma_parse_items_error_persists::<T>(
                                s,
                                start,
                                (i + 1) as nat,
                                n as nat,
                            );
                        }
                        return Err(e);
                    },
                }
                i = i + 1;
            }
            proof {
                reveal(parse_array);
            }
            Ok(Some(items))
        },
    }
}

/// Copies a row of values one by one.
pub fn duplicate_items<T: Model>(items: &Option<Vec<T>>) -> (r: Option<Vec<T>>)
    ensures
        array_model(r) == array_model(*items),
{
    match items {
        None => None,
        Some(v) => {
            let mut out: Vec<T> = Vec::new();
            let mut i: usize = 0;
            while i < v.len()
                invariant
                    i <= v@.len(),
                    out@.len() == i,
                    forall|j: int| 0 <= j < i ==> out@[j].model() == v@[j].model(),
                decreases v@.len() - i,
            {
                let item = v[i].duplicate();
                out.push(item);
                i = i + 1;
            }
            proof {
                assert(models(out@) =~= models(v@));
            }
            Some(out)
        },
    }
}

} // verus!
