//! Finding where a null-terminated field ends.
//!
//! Strings, type tags and addresses are all laid out in the same way: the
//! content, a null byte, and null bytes up to the end of the unit. A decoder
//! reads whole units and looks at their bytes in order; it stops at the
//! first byte that ends the field or cannot belong to it.

use crate::batch::padded;
use crate::decode::{spec_read_unit, Decoded, Misaligned4B};
use vstd::prelude::*;

verus! {

/// The null byte, which ends a field and pads it.
pub const NUL: u8 = 0;

/// The outcome of a decoder that needed another unit where `input` had none
/// to give: all of the input is used up; it has ended if its length is a
/// multiple of four, and is misaligned if not.
pub open spec fn ran_out<V, E>(input: Seq<u8>) -> Decoded<V, E> {
    Decoded {
        result: Err(
            if input.len() % 4 == 0 {
                Misaligned4B::End
            } else {
                Misaligned4B::Misaligned
            },
        ),
        rest: Seq::empty(),
    }
}

/// The whole units of `input`: its longest prefix whose length is a multiple
/// of four.
pub open spec fn whole_units(input: Seq<u8>) -> Seq<u8> {
    input.take(4 * (input.len() / 4) as int)
}

/// Where the unit that holds index `i` ends.
pub open spec fn unit_end(i: int) -> int {
    4 * (i / 4) + 4
}

/// The first index of `s` at or after `from` at which `stop` holds, or the
/// length of `s` where it holds nowhere.
pub open spec fn first_stop(s: Seq<u8>, from: int, stop: spec_fn(Seq<u8>, int) -> bool) -> int
    decreases s.len() - from,
{
    if from >= s.len() {
        s.len() as int
    } else if stop(s, from) {
        from
    } else {
        first_stop(s, from + 1, stop)
    }
}

/// Every byte after index `i` in the unit of `i` is null.
pub open spec fn null_to_unit_end(s: Seq<u8>, i: int) -> bool {
    forall|k: int| i < k < unit_end(i) && k < s.len() ==> s[k] == 0
}

/// `first_stop` is at or after `from`, `stop` holds there unless it is the
/// length of `s`, and `stop` holds nowhere between `from` and it.
pub proof fn lemma_first_stop(s: Seq<u8>, from: int, stop: spec_fn(Seq<u8>, int) -> bool)
    requires
        0 <= from <= s.len(),
    ensures
        from <= first_stop(s, from, stop) <= s.len(),
        first_stop(s, from, stop) < s.len() ==> stop(s, first_stop(s, from, stop)),
        forall|i: int| from <= i < first_stop(s, from, stop) ==> !#[trigger] stop(s, i),
    decreases s.len() - from,
{
    if from < s.len() && !stop(s, from) {
        lemma_first_stop(s, from + 1, stop);
    }
}

/// Where `stop` holds nowhere from `from` up to `to`, the search from `from`
/// and the search from `to` find the same index.
pub proof fn lemma_first_stop_from(
    s: Seq<u8>,
    from: int,
    to: int,
    stop: spec_fn(Seq<u8>, int) -> bool,
)
    requires
        0 <= from <= to <= s.len(),
        forall|i: int| from <= i < to ==> !#[trigger] stop(s, i),
    ensures
        first_stop(s, from, stop) == first_stop(s, to, stop),
    decreases to - from,
{
    if from < to {
        lemma_first_stop_from(s, from + 1, to, stop);
    }
}

/// Where `stop` holds at `j` and nowhere from `from` up to `j`, the search
/// from `from` finds `j`.
pub proof fn lemma_first_stop_is(
    s: Seq<u8>,
    from: int,
    j: int,
    stop: spec_fn(Seq<u8>, int) -> bool,
)
    requires
        0 <= from <= j < s.len(),
        forall|i: int| from <= i < j ==> !#[trigger] stop(s, i),
        stop(s, j),
    ensures
        first_stop(s, from, stop) == j,
{
    lemma_first_stop_from(s, from, j, stop);
}

/// How a null-terminated field lies on the wire. Where `body`, a null byte
/// and the padding are followed by `tail`, the whole units begin with
/// `body` and the null byte, only null bytes follow that one in its unit,
/// and `tail` begins where its unit ends.
pub proof fn lemma_field_layout(body: Seq<u8>, tail: Seq<u8>)
    ensures
        ({
            let field = padded(body + seq![NUL]);
            let input = field + tail;
            let whole = whole_units(input);
            &&& field.len() >= 4
            &&& field.len() % 4 == 0
            &&& field.len() <= whole.len()
            &&& whole.subrange(0, body.len() as int) == body
            &&& whole[body.len() as int] == NUL
            &&& null_to_unit_end(whole, body.len() as int)
            &&& unit_end(body.len() as int) == field.len()
            &&& input.skip(field.len() as int) == tail
        }),
{
    let field = padded(body + seq![NUL]);
    let input = field + tail;
    let whole = whole_units(input);
    assert(whole.subrange(0, body.len() as int) =~= body);
    assert(input.skip(field.len() as int) =~= tail);
}

/// Reading the unit after the first `n` units of `input`, where `rest` is
/// what follows those. Where no whole unit is left, the input has run out,
/// and the read fails as `ran_out` says. Where one is left, it is the next
/// four bytes of the whole units, and what follows it is what follows the
/// first `n + 1` units.
pub proof fn lemma_next_unit<V, E>(input: Seq<u8>, n: int, rest: Seq<u8>)
    requires
        0 <= n,
        4 * n <= whole_units(input).len(),
        rest == input.skip(4 * n),
    ensures
        rest.len() < 4 ==> {
            &&& whole_units(input).len() == 4 * n
            &&& spec_read_unit::<E>(rest).result is Err
            &&& spec_read_unit::<E>(rest).result->Err_0 == ran_out::<V, E>(input).result->Err_0
            &&& spec_read_unit::<E>(rest).rest == ran_out::<V, E>(input).rest
        },
        rest.len() >= 4 ==> {
            &&& 4 * (n + 1) <= whole_units(input).len()
            &&& spec_read_unit::<E>(rest).result == Ok::<Seq<u8>, Misaligned4B<E>>(
                whole_units(input).subrange(4 * n, 4 * n + 4),
            )
            &&& spec_read_unit::<E>(rest).rest == input.skip(4 * (n + 1))
        },
{
    let whole = whole_units(input);
    assert(whole.len() == 4 * (input.len() / 4));
    assert(rest.len() == input.len() - 4 * n);
    if rest.len() < 4 {
        assert(input.len() / 4 == n);
        assert(spec_read_unit::<E>(rest).rest =~= Seq::<u8>::empty());
    } else {
        assert(input.len() / 4 >= n + 1);
        assert(rest.take(4) =~= whole.subrange(4 * n, 4 * n + 4));
        assert(rest.skip(4) =~= input.skip(4 * (n + 1)));
    }
}

/// Whether only null bytes follow the byte at index `k` of `unit`, which is
/// the unit of `whole` that begins at `base`.
pub(crate) fn null_after(
    unit: &[u8; 4],
    k: usize,
    Ghost(whole): Ghost<Seq<u8>>,
    Ghost(base): Ghost<int>,
) -> (null: bool)
    requires
        0 <= base,
        base % 4 == 0,
        base + 4 <= whole.len(),
        k < 4,
        unit@ == whole.subrange(base, base + 4),
    ensures
        null == null_to_unit_end(whole, base + k),
{
    assert(unit_end(base + k) == base + 4);
    let mut m: usize = k + 1;
    while m < 4
        invariant
            k < m <= 4,
            0 <= base,
            base + 4 <= whole.len(),
            unit_end(base + k) == base + 4,
            unit@ == whole.subrange(base, base + 4),
            forall|i: int| base + k < i < base + m ==> whole[i] == 0,
        decreases 4 - m,
    {
        assert(unit@[m as int] == whole.subrange(base, base + 4)[m as int]);
        if unit[m] != NUL {
            return false;
        }
        m = m + 1;
    }
    true
}

/// How a null-terminated field that was read lies on the wire. Where the
/// whole units hold a null byte at `j` and only null bytes after it in its
/// unit, the bytes before `j`, a null byte and the padding are the input up
/// to the end of that unit.
pub proof fn lemma_field_read(input: Seq<u8>, j: int)
    requires
        0 <= j < whole_units(input).len(),
        whole_units(input)[j] == NUL,
        null_to_unit_end(whole_units(input), j),
    ensures
        unit_end(j) <= input.len(),
        padded(whole_units(input).subrange(0, j) + seq![NUL]) == input.take(unit_end(j)),
{
    let whole = whole_units(input);
    let field = padded(whole.subrange(0, j) + seq![NUL]);
    assert(field.len() == unit_end(j));
    assert forall|i: int| 0 <= i < field.len() implies field[i] == input.take(unit_end(j))[i] by {
        assert(input.take(unit_end(j))[i] == whole[i]);
        if i > j {
            assert(whole[i] == 0);
        }
    }
    assert(field =~= input.take(unit_end(j)));
}

} // verus!
