//! What holds of every attribute table, proved from the contracts of its
//! operations.

use vstd::prelude::*;
use crate::attribute::{AccessRight, Attribute, AttributeView, HandleRange};
use crate::ble::{ends_group, group_end_is, in_range, valid_table, with_value, BleAttributes};

verus! {

/// The handles of a valid table rise with the index, so no two attributes
/// share one.
proof fn lemma_handles_rise(table: BleAttributes, i: int, j: int)
    requires
        table.well_formed(),
        0 <= i < table@.len(),
        0 <= j < table@.len(),
    ensures
        i < j <==> table@[i].handle < table@[j].handle,
        i == j <==> table@[i].handle == table@[j].handle,
{
}

/// A filter that accepts every item keeps the sequence whole.
proof fn lemma_filter_keeps_all<A>(s: Seq<A>, pred: spec_fn(A) -> bool)
    requires
        forall|i: int| 0 <= i < s.len() ==> pred(#[trigger] s[i]),
    ensures
        s.filter(pred) == s,
    decreases s.len(),
{
    reveal(Seq::filter);
    if s.len() > 0 {
        lemma_filter_keeps_all(s.drop_last(), pred);
    }
}

/// A filter that accepts no item keeps nothing.
proof fn lemma_filter_keeps_none<A>(s: Seq<A>, pred: spec_fn(A) -> bool)
    requires
        forall|i: int| 0 <= i < s.len() ==> !pred(#[trigger] s[i]),
    ensures
        s.filter(pred) == Seq::<A>::empty(),
    decreases s.len(),
{
    reveal(Seq::filter);
    if s.len() > 0 {
        lemma_filter_keeps_none(s.drop_last(), pred);
    }
}

/// What a filter keeps of attributes in rising order of handle is in rising
/// order of handle, and each kept attribute is one of the sequence.
proof fn lemma_filter_keeps_order(s: Seq<Attribute>, pred: spec_fn(Attribute) -> bool)
    requires
        forall|i: int, j: int|
            0 <= i < j < s.len() ==> (#[trigger] s[i]).handle < (#[trigger] s[j]).handle,
    ensures
        forall|i: int, j: int|
            0 <= i < j < s.filter(pred).len() ==> (#[trigger] s.filter(pred)[i]).handle < (
            #[trigger] s.filter(pred)[j]).handle,
        forall|k: int|
            0 <= k < s.filter(pred).len() ==> pred(#[trigger] s.filter(pred)[k]) && s.contains(
                s.filter(pred)[k],
            ),
    decreases s.len(),
{
    reveal(Seq::filter);
    if s.len() > 0 {
        let rest = s.drop_last();
        let kept = rest.filter(pred);
        lemma_filter_keeps_order(rest, pred);
        assert forall|k: int| 0 <= k < kept.len() implies s.contains(#[trigger] kept[k])
            && kept[k].handle < s.last().handle by {
            let p = choose|p: int| 0 <= p < rest.len() && rest[p] == kept[k];
            assert(s[p] == kept[k]);
        }
    }
}

/// Exactly one attribute of the table may be written; every other may only
/// be read.
pub proof fn lemma_one_attribute_is_writable(table: BleAttributes)
    requires
        table.well_formed(),
    ensures
        exists|w: int|
            {
                &&& 0 <= w < table@.len()
                &&& table.spec_access(#[trigger] table@[w].handle) == AccessRight::ReadWrite
                &&& forall|i: int|
                    0 <= i < table@.len() && i != w ==> table.spec_access(
                        #[trigger] table@[i].handle,
                    ) == AccessRight::ReadOnly
            },
{
    let attrs = table@;
    let writable = table.spec_writable_handle();
    let w = choose|i: int| 0 <= i < attrs.len() && (#[trigger] attrs[i]).handle == writable;
    assert forall|i: int| 0 <= i < attrs.len() && i != w implies table.spec_access(
        #[trigger] attrs[i].handle,
    ) == AccessRight::ReadOnly by {
        lemma_handles_rise(table, i, w);
    }
}

/// The end of a group lies at or after the attribute that opens it, and no
/// attribute strictly between the two opens a group of the same reach or a
/// wider one.
pub proof fn lemma_group_end_contains_group(
    table: BleAttributes,
    g: int,
    last: Option<AttributeView>,
)
    requires
        table.well_formed(),
        0 <= g < table@.len(),
        table@[g].att_type.is_grouping(),
        group_end_is(table@, table@[g].handle, last),
    ensures
        last is Some,
        last->Some_0.handle >= table@[g].handle,
        exists|e: int|
            {
                &&& g <= e < table@.len()
                &&& #[trigger] table@[e] == last->Some_0
                &&& forall|k: int|
                    g < k < e ==> (#[trigger] table@[k]).att_type.group_rank()
                        < table@[g].att_type.group_rank()
            },
{
    let attrs = table@;
    let handle = attrs[g].handle;
    let a = last->Some_0;
    let (i, e) = choose|i: int, e: int|
        #[trigger] ends_group(attrs, i, e) && attrs[i].handle == handle && attrs[e] == a;
    lemma_handles_rise(table, i, g);
    lemma_handles_rise(table, g, e);
}

/// A lookup of a group end has one answer: two results that both meet the
/// contract of the lookup, for one handle on one table, are the same.
pub proof fn lemma_group_end_is_unique(
    table: BleAttributes,
    handle: u16,
    first: Option<AttributeView>,
    second: Option<AttributeView>,
)
    requires
        table.well_formed(),
        group_end_is(table@, handle, first),
        group_end_is(table@, handle, second),
    ensures
        first == second,
{
    let attrs = table@;
    if first is Some && second is Some {
        let (i, e) = choose|i: int, e: int|
            #[trigger] ends_group(attrs, i, e) && attrs[i].handle == handle && attrs[e]
                == first->Some_0;
        let (j, f) = choose|j: int, f: int|
            #[trigger] ends_group(attrs, j, f) && attrs[j].handle == handle && attrs[f]
                == second->Some_0;
        lemma_handles_rise(table, i, j);
        lemma_group_has_one_end(attrs, i, e, f);
    }
}

/// A group has one end.
proof fn lemma_group_has_one_end(attrs: Seq<AttributeView>, start: int, e: int, f: int)
    requires
        ends_group(attrs, start, e),
        ends_group(attrs, start, f),
    ensures
        e == f,
{
}

/// A range whose start lies above its end holds no attribute: a query on it
/// visits nothing.
pub proof fn lemma_inverted_range_visits_nothing(table: BleAttributes, range: HandleRange)
    requires
        range.start > range.end,
    ensures
        table.attrs_in_range(range) == Seq::<Attribute>::empty(),
{
    lemma_filter_keeps_none(table.attributes(), in_range(range));
}

/// A range that holds no handle of the table holds no attribute: a query on
/// it visits nothing.
pub proof fn lemma_disjoint_range_visits_nothing(table: BleAttributes, range: HandleRange)
    requires
        forall|i: int|
            0 <= i < table.attributes().len() ==> !range.spec_contains(
                (#[trigger] table.attributes()[i]).handle,
            ),
    ensures
        table.attrs_in_range(range) == Seq::<Attribute>::empty(),
{
    lemma_filter_keeps_none(table.attributes(), in_range(range));
}

/// A range that reaches from the first handle of the table to the last, or
/// further, holds every attribute: a query on it visits the whole table, each
/// attribute once, in rising order of handle.
pub proof fn lemma_covering_range_visits_all(table: BleAttributes, range: HandleRange)
    requires
        table.well_formed(),
        range.start <= table@[0].handle,
        table@[table@.len() - 1].handle <= range.end,
    ensures
        table.attrs_in_range(range) == table.attributes(),
        forall|i: int, j: int|
            0 <= i < j < table.attributes().len() ==> (#[trigger] table.attributes()[i]).handle < (
            #[trigger] table.attributes()[j]).handle,
{
    let all = table.attributes();
    assert forall|i: int| 0 <= i < all.len() implies in_range(range)(#[trigger] all[i]) by {
        lemma_handles_rise(table, 0, i);
        lemma_handles_rise(table, i, all.len() - 1);
    }
    lemma_filter_keeps_all(all, in_range(range));
    assert forall|i: int, j: int| 0 <= i < j < all.len() implies (#[trigger] all[i]).handle < (
    #[trigger] all[j]).handle by {
        lemma_handles_rise(table, i, j);
    }
}

/// Whatever the range, a query visits attributes of the table whose handle
/// lies in the range, in rising order of handle, and leaves out none of them.
pub proof fn lemma_visits_rise(table: BleAttributes, range: HandleRange)
    requires
        table.well_formed(),
    ensures
        forall|i: int, j: int|
            0 <= i < j < table.attrs_in_range(range).len() ==> (
            #[trigger] table.attrs_in_range(range)[i]).handle < (
            #[trigger] table.attrs_in_range(range)[j]).handle,
        forall|k: int|
            0 <= k < table.attrs_in_range(range).len() ==> {
                &&& range.spec_contains((#[trigger] table.attrs_in_range(range)[k]).handle)
                &&& table.attributes().contains(table.attrs_in_range(range)[k])
            },
        forall|i: int|
            0 <= i < table.attributes().len() && range.spec_contains(
                (#[trigger] table.attributes()[i]).handle,
            ) ==> table.attrs_in_range(range).contains(table.attributes()[i]),
{
    let all = table.attributes();
    assert forall|i: int, j: int| 0 <= i < j < all.len() implies (#[trigger] all[i]).handle < (
    #[trigger] all[j]).handle by {
        lemma_handles_rise(table, i, j);
    }
    lemma_filter_keeps_order(all, in_range(range));
    assert forall|i: int| 0 <= i < all.len() && range.spec_contains((#[trigger] all[i]).handle)
    implies all.filter(in_range(range)).contains(all[i]) by {
        all.lemma_filter_contains(in_range(range), i);
    }
}

/// A write changes no handle and no type, so every group ends where it did.
pub proof fn lemma_write_keeps_structure(
    attrs: Seq<AttributeView>,
    handle: u16,
    data: Seq<u8>,
    start: int,
    end: int,
)
    ensures
        with_value(attrs, handle, data).len() == attrs.len(),
        forall|i: int|
            0 <= i < attrs.len() ==> {
                &&& (#[trigger] with_value(attrs, handle, data)[i]).handle == attrs[i].handle
                &&& with_value(attrs, handle, data)[i].att_type == attrs[i].att_type
            },
        ends_group(attrs, start, end) ==> ends_group(with_value(attrs, handle, data), start, end),
{
    let after = with_value(attrs, handle, data);
    if ends_group(attrs, start, end) && attrs[start].att_type.is_primary_service() {
        assert forall|k: int| start < k <= end implies !(
        #[trigger] after[k]).att_type.is_primary_service() by {
            assert(after[k].att_type == attrs[k].att_type);
        }
    }
}

/// After a write of `data`, a query on a range that holds the writable
/// handle visits the attribute with that handle, and finds `data` as its
/// value.
pub proof fn lemma_written_value_is_visited(
    before: BleAttributes,
    after: BleAttributes,
    data: Seq<u8>,
    range: HandleRange,
)
    requires
        before.well_formed(),
        after@ == with_value(before@, before.spec_writable_handle(), data),
        range.spec_contains(before.spec_writable_handle()),
    ensures
        exists|k: int|
            {
                &&& 0 <= k < after.attrs_in_range(range).len()
                &&& (#[trigger] after.attrs_in_range(range)[k]).handle
                    == before.spec_writable_handle()
            },
        forall|k: int|
            0 <= k < after.attrs_in_range(range).len() && (
            #[trigger] after.attrs_in_range(range)[k]).handle == before.spec_writable_handle()
                ==> after.attrs_in_range(range)[k]@.value == data,
{
    let writable = before.spec_writable_handle();
    let all = after.attributes();
    let visited = after.attrs_in_range(range);
    let w = choose|i: int| 0 <= i < before@.len() && (#[trigger] before@[i]).handle == writable;
    assert(all.len() == after@.len());
    assert(all[w]@ == after@[w]);
    all.lemma_filter_contains(in_range(range), w);
    let k = choose|k: int| 0 <= k < visited.len() && visited[k] == all[w];
    assert(visited[k].handle == writable);
    assert forall|k: int| 0 <= k < visited.len() && (#[trigger] visited[k]).handle
        == writable implies visited[k]@.value == data by {
        all.lemma_filter_contains_rev(in_range(range), visited[k]);
        let p = choose|p: int| 0 <= p < all.len() && all[p] == visited[k];
        assert(all[p]@ == after@[p]);
    }
}

} // verus!
