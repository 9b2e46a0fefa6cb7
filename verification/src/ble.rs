//! The attribute table of the watch's BLE peripheral role.
//!
//! The table is fixed when it is built: handles and types never change, and
//! only the value of one designated attribute can be replaced. The link
//! layer queries it by handle, by handle range and by group.

use vstd::prelude::*;
use crate::attribute::{AccessRight, Attribute, AttributeView, HandleRange, QueryError, WriteError};
use crate::uuid::{uuid_equals_alias, AttUuid, CHARACTERISTIC_UUID16, PRIMARY_SERVICE_UUID16};

verus! {

/// The views of a sequence of attributes, in the same order.
pub open spec fn views(attributes: Seq<Attribute>) -> Seq<AttributeView> {
    attributes.map_values(|a: Attribute| a@)
}

/// Whether a characteristic declaration at index `i` is followed by the
/// attribute that holds its value. Holds of every other attribute.
pub open spec fn value_follows(attrs: Seq<AttributeView>, i: int) -> bool {
    attrs[i].att_type.is_characteristic() ==> i + 1 < attrs.len()
        && !attrs[i + 1].att_type.is_grouping()
}

/// Whether `attrs`, with `writable` as the handle open to writes, is a table
/// that can be served: no handle is 0, handles rise strictly along the
/// table, every characteristic declaration is followed by its value, and the
/// writable handle is that of an attribute of the table.
pub open spec fn valid_table(attrs: Seq<AttributeView>, writable: u16) -> bool {
    &&& forall|i: int| 0 <= i < attrs.len() ==> (#[trigger] attrs[i]).handle != 0
    &&& forall|i: int, j: int|
        0 <= i < j < attrs.len() ==> (#[trigger] attrs[i]).handle < (#[trigger] attrs[j]).handle
    &&& forall|i: int| 0 <= i < attrs.len() ==> #[trigger] value_follows(attrs, i)
    &&& exists|i: int| 0 <= i < attrs.len() && (#[trigger] attrs[i]).handle == writable
}

/// Whether the group that the attribute at index `start` opens has its last
/// attribute at index `end`.
///
/// A primary service runs up to the attribute before the next primary
/// service, or to the end of the table. A characteristic declaration runs up
/// to the attribute after it, which holds its value.
pub open spec fn ends_group(attrs: Seq<AttributeView>, start: int, end: int) -> bool {
    &&& 0 <= start <= end < attrs.len()
    &&& if attrs[start].att_type.is_primary_service() {
        &&& forall|k: int| start < k <= end ==> !(#[trigger] attrs[k]).att_type.is_primary_service()
        &&& end + 1 < attrs.len() ==> attrs[end + 1].att_type.is_primary_service()
    } else {
        &&& attrs[start].att_type.is_characteristic()
        &&& end == start + 1
    }
}

/// Whether `last` is what a lookup of the group end for `handle` gives on the
/// table `attrs`: the last attribute of the group that the attribute with
/// this handle opens, or nothing where no attribute with this handle opens a
/// group.
pub open spec fn group_end_is(
    attrs: Seq<AttributeView>,
    handle: u16,
    last: Option<AttributeView>,
) -> bool {
    match last {
        Some(a) => exists|i: int, e: int|
            #[trigger] ends_group(attrs, i, e) && attrs[i].handle == handle && attrs[e] == a,
        None => forall|i: int|
            0 <= i < attrs.len() && (#[trigger] attrs[i]).handle == handle
                ==> !attrs[i].att_type.is_grouping(),
    }
}

/// The table `attrs` with `data` as the value of the attribute whose handle
/// is `handle`, and every other attribute as it was.
pub open spec fn with_value(attrs: Seq<AttributeView>, handle: u16, data: Seq<u8>) -> Seq<
    AttributeView,
> {
    attrs.map_values(
        |a: AttributeView|
            if a.handle == handle {
                AttributeView { handle: a.handle, att_type: a.att_type, value: data }
            } else {
                a
            },
    )
}

/// The test that a range query applies to each attribute: whether its handle
/// lies in `range`.
pub open spec fn in_range(range: HandleRange) -> spec_fn(Attribute) -> bool {
    |a: Attribute| range.spec_contains(a.handle)
}

/// Splitting a sequence at `i` splits what a filter keeps of it.
proof fn lemma_filter_split<A>(s: Seq<A>, pred: spec_fn(A) -> bool, i: int)
    requires
        0 <= i <= s.len(),
    ensures
        s.filter(pred) == s.take(i).filter(pred) + s.skip(i).filter(pred),
{
    assert(s =~= s.take(i) + s.skip(i));
    Seq::filter_distributes_over_add(s.take(i), s.skip(i), pred);
}

/// What a filter keeps of the first `i + 1` items: what it keeps of the first
/// `i`, and the item at `i` where the filter accepts it.
proof fn lemma_filter_step<A>(s: Seq<A>, pred: spec_fn(A) -> bool, i: int)
    requires
        0 <= i < s.len(),
    ensures
        s.take(i + 1).filter(pred) == if pred(s[i]) {
            s.take(i).filter(pred).push(s[i])
        } else {
            s.take(i).filter(pred)
        },
{
    assert(s.take(i + 1) =~= s.take(i).push(s[i]));
    s.take(i).lemma_filter_push(s[i], pred);
}

/// Whether two tables hold the same handles and types, index by index.
spec fn same_shape(a: Seq<AttributeView>, b: Seq<AttributeView>) -> bool {
    &&& a.len() == b.len()
    &&& forall|k: int|
        0 <= k < a.len() ==> (#[trigger] a[k]).handle == b[k].handle && a[k].att_type
            == b[k].att_type
}

/// Validity of a table rests on its handles and types alone.
proof fn lemma_shape_keeps_validity(a: Seq<AttributeView>, b: Seq<AttributeView>, writable: u16)
    requires
        same_shape(a, b),
        valid_table(a, writable),
    ensures
        valid_table(b, writable),
{
    assert forall|i: int| 0 <= i < b.len() implies (#[trigger] b[i]).handle != 0 by {
        assert(a[i].handle != 0);
    }
    assert forall|i: int, j: int| 0 <= i < j < b.len() implies (#[trigger] b[i]).handle < (
    #[trigger] b[j]).handle by {
        assert(a[i].handle < a[j].handle);
    }
    assert forall|i: int| 0 <= i < b.len() implies #[trigger] value_follows(b, i) by {
        assert(value_follows(a, i));
    }
    let w = choose|i: int| 0 <= i < a.len() && (#[trigger] a[i]).handle == writable;
    assert(b[w].handle == writable);
}

/// Where a group ends rests on the types alone.
proof fn lemma_shape_keeps_groups(
    a: Seq<AttributeView>,
    b: Seq<AttributeView>,
    start: int,
    end: int,
)
    requires
        same_shape(a, b),
        ends_group(a, start, end),
    ensures
        ends_group(b, start, end),
{
    if a[start].att_type.is_primary_service() {
        assert forall|k: int| start < k <= end implies !(
        #[trigger] b[k]).att_type.is_primary_service() by {
            assert(!a[k].att_type.is_primary_service());
        }
    }
}

/// The attribute table: the attributes in rising order of handle, the index
/// of each group's last attribute, and the one handle that accepts writes.
pub struct BleAttributes {
    attributes: Vec<Attribute>,
    group_ends: Vec<Option<usize>>,
    writable_handle: u16,
    writable_index: usize,
}

impl View for BleAttributes {
    type V = Seq<AttributeView>;

    open spec fn view(&self) -> Seq<AttributeView> {
        views(self.attributes())
    }
}

impl BleAttributes {
    /// The attributes of the table, in table order.
    pub closed spec fn attributes(&self) -> Seq<Attribute> {
        self.attributes@
    }

    /// The handle of the attribute that accepts writes.
    pub closed spec fn spec_writable_handle(&self) -> u16 {
        self.writable_handle
    }

    /// Whether the lookup tables kept beside the attributes agree with them.
    pub closed spec fn tables_agree(&self) -> bool {
        &&& self.group_ends@.len() == self.attributes@.len()
        &&& forall|i: int|
            0 <= i < self.group_ends@.len() ==> match #[trigger] self.group_ends@[i] {
                Some(e) => ends_group(self@, i, e as int),
                None => !self@[i].att_type.is_grouping(),
            }
        &&& self.writable_index < self.attributes@.len()
        &&& self.attributes@[self.writable_index as int].handle == self.writable_handle
    }

    /// The invariant of the table.
    pub open spec fn well_formed(&self) -> bool {
        &&& valid_table(self@, self.spec_writable_handle())
        &&& self.tables_agree()
    }
}

fn is_service_type(t: AttUuid) -> (r: bool)
    ensures
        r == t.is_primary_service(),
{
    uuid_equals_alias(t, PRIMARY_SERVICE_UUID16)
}

fn is_characteristic_type(t: AttUuid) -> (r: bool)
    ensures
        r == t.is_characteristic(),
{
    uuid_equals_alias(t, CHARACTERISTIC_UUID16)
}

impl BleAttributes {
    /// Builds the table from its attributes and the handle that accepts
    /// writes, or gives nothing where the two do not make a valid table.
    pub fn new(attributes: Vec<Attribute>, writable_handle: u16) -> (r: Option<BleAttributes>)
        ensures
            match r {
                Some(table) => {
                    &&& table.well_formed()
                    &&& table.attributes() == attributes@
                    &&& table.spec_writable_handle() == writable_handle
                },
                None => !valid_table(views(attributes@), writable_handle),
            },
    {
        let n = attributes.len();
        let ghost attrs = views(attributes@);
        let mut found: Option<usize> = None;
        let mut i: usize = 0;
        while i < n
            invariant
                n == attributes.len(),
                attrs == views(attributes@),
                0 <= i <= n,
                forall|k: int| 0 <= k < i ==> (#[trigger] attrs[k]).handle != 0,
                forall|a: int, b: int|
                    0 <= a < b < i ==> (#[trigger] attrs[a]).handle < (#[trigger] attrs[b]).handle,
                forall|k: int| 0 <= k < i ==> #[trigger] value_follows(attrs, k),
                match found {
                    Some(w) => w < i && attrs[w as int].handle == writable_handle,
                    None => forall|k: int|
                        0 <= k < i ==> (#[trigger] attrs[k]).handle != writable_handle,
                },
            decreases n - i,
        {
            let handle = attributes[i].handle;
            if handle == 0 {
                return None;
            }
            if i > 0 && attributes[i - 1].handle >= handle {
                assert(attrs[i - 1].handle >= attrs[i as int].handle);
                return None;
            }
            if is_characteristic_type(attributes[i].att_type) {
                if i + 1 >= n {
                    assert(!value_follows(attrs, i as int));
                    return None;
                }
                let next = attributes[i + 1].att_type;
                if is_service_type(next) || is_characteristic_type(next) {
                    assert(!value_follows(attrs, i as int));
                    return None;
                }
            }
            if handle == writable_handle {
                found = Some(i);
            }
            i = i + 1;
        }
        let writable_index = match found {
            Some(w) => w,
            None => {
                return None;
            },
        };
        let mut group_ends: Vec<Option<usize>> = Vec::new();
        let mut k: usize = 0;
        while k < n
            invariant
                0 <= k <= n,
                group_ends@.len() == k,
                forall|j: int| 0 <= j < k ==> group_ends@[j] is None,
            decreases n - k,
        {
            group_ends.push(None);
            k = k + 1;
        }
        let mut next_service: usize = n;
        let mut i: usize = n;
        while i > 0
            invariant
                n == attributes.len(),
                attrs == views(attributes@),
                group_ends@.len() == n,
                0 <= i <= next_service <= n,
                forall|k: int| 0 <= k < i ==> group_ends@[k] is None,
                forall|k: int| 0 <= k < n ==> #[trigger] value_follows(attrs, k),
                forall|k: int|
                    i <= k < next_service ==> !(#[trigger] attrs[k]).att_type.is_primary_service(),
                next_service < n ==> attrs[next_service as int].att_type.is_primary_service(),
                forall|k: int|
                    i <= k < n ==> match #[trigger] group_ends@[k] {
                        Some(e) => ends_group(attrs, k, e as int),
                        None => !attrs[k].att_type.is_grouping(),
                    },
            decreases i,
        {
            i = i - 1;
            let t = attributes[i].att_type;
            if is_service_type(t) {
                group_ends.set(i, Some(next_service - 1));
                next_service = i;
            } else if is_characteristic_type(t) {
                assert(value_follows(attrs, i as int));
                group_ends.set(i, Some(i + 1));
            }
        }
        let table = BleAttributes { attributes, group_ends, writable_handle, writable_index };
        Some(table)
    }

    /// The handle of the attribute that accepts writes.
    pub fn writable_handle(&self) -> (handle: u16)
        ensures
            handle == self.spec_writable_handle(),
    {
        self.writable_handle
    }

    /// The access that the table grants on `handle`: read and write on the
    /// writable handle, read alone on every other.
    pub open spec fn spec_access(&self, handle: u16) -> AccessRight {
        if handle == self.spec_writable_handle() {
            AccessRight::ReadWrite
        } else {
            AccessRight::ReadOnly
        }
    }

    /// What a client may do with the attribute at `handle`.
    pub fn attr_access_permissions(&self, handle: u16) -> (right: AccessRight)
        ensures
            right == self.spec_access(handle),
    {
        if handle == self.writable_handle {
            AccessRight::ReadWrite
        } else {
            AccessRight::ReadOnly
        }
    }

    /// Whether attributes of type `uuid` open a group: true of the Primary
    /// Service and the Characteristic declaration types, false of all others.
    pub fn is_grouping_attr(&self, uuid: AttUuid) -> (r: bool)
        ensures
            r == uuid.is_grouping(),
    {
        is_service_type(uuid) || is_characteristic_type(uuid)
    }

    /// The attributes whose handle lies in `range`, in table order: what a
    /// range query hands to its visitor, one after the other.
    pub open spec fn attrs_in_range(&self, range: HandleRange) -> Seq<Attribute> {
        self.attributes().filter(in_range(range))
    }

    /// Calls `f` on every attribute whose handle lies in `range`, in table
    /// order, until one call fails or none is left.
    ///
    /// Gives the first failure, after which no further attribute is visited,
    /// or success when every visit succeeded.
    pub fn for_attrs_in_range<F>(&self, range: HandleRange, f: F) -> (r: Result<
        (),
        QueryError,
    >) where F: FnMut(&BleAttributes, &Attribute) -> Result<(), QueryError>
        requires
            forall|k: int|
                0 <= k < self.attrs_in_range(range).len() ==> call_requires(
                    f,
                    (self, &#[trigger] self.attrs_in_range(range)[k]),
                ),
        ensures
            self.attrs_in_range(range).len() == 0 ==> r is Ok,
            match r {
                Ok(()) => forall|k: int|
                    0 <= k < self.attrs_in_range(range).len() ==> call_ensures(
                        f,
                        (self, &#[trigger] self.attrs_in_range(range)[k]),
                        Ok(()),
                    ),
                Err(e) => exists|k: int|
                    {
                        &&& 0 <= k < self.attrs_in_range(range).len()
                        &&& call_ensures(
                            f,
                            (self, &#[trigger] self.attrs_in_range(range)[k]),
                            Err(e),
                        )
                        &&& forall|j: int|
                            0 <= j < k ==> call_ensures(
                                f,
                                (self, &#[trigger] self.attrs_in_range(range)[j]),
                                Ok(()),
                            )
                    },
            },
    {
        let ghost all = self.attributes();
        let ghost pred = in_range(range);
        let ghost visited = all.filter(pred);
        let n = self.attributes.len();
        let mut visit = f;
        let mut i: usize = 0;
        while i < n
            invariant
                n == self.attributes.len(),
                all == self.attributes(),
                pred == in_range(range),
                visited == all.filter(pred),
                visited == self.attrs_in_range(range),
                0 <= i <= n,
                visit == f,
                forall|k: int|
                    0 <= k < visited.len() ==> call_requires(f, (self, &#[trigger] visited[k])),
                forall|k: int|
                    0 <= k < all.take(i as int).filter(pred).len() ==> call_ensures(
                        f,
                        (self, &#[trigger] visited[k]),
                        Ok(()),
                    ),
            decreases n - i,
        {
            proof {
                lemma_filter_step(all, pred, i as int);
                lemma_filter_split(all, pred, i as int + 1);
            }
            let ghost before = all.take(i as int).filter(pred);
            if range.contains(self.attributes[i].handle) {
                assert(visited[before.len() as int] == all[i as int]);
                let r = visit(self, &self.attributes[i]);
                match r {
                    Ok(()) => {
                        assert(r->Ok_0 == ());
                    },
                    Err(e) => {
                        return Err(e);
                    },
                }
            }
            i = i + 1;
        }
        assert(all.take(n as int) =~= all);
        Ok(())
    }

    /// Replaces the value of the writable attribute by `data`.
    ///
    /// Refuses, and leaves the table as it was, where `handle` is not the
    /// writable handle (`Unwritable`) and where it is but `data` is empty
    /// (`InvalidLength`).
    pub fn write_attr(&mut self, handle: u16, data: &[u8]) -> (r: Result<(), WriteError>)
        requires
            old(self).well_formed(),
        ensures
            final(self).well_formed(),
            final(self).spec_writable_handle() == old(self).spec_writable_handle(),
            match r {
                Ok(()) => {
                    &&& handle == old(self).spec_writable_handle()
                    &&& data@.len() > 0
                    &&& final(self)@ == with_value(old(self)@, handle, data@)
                },
                Err(WriteError::Unwritable) => {
                    &&& handle != old(self).spec_writable_handle()
                    &&& *final(self) == *old(self)
                },
                Err(WriteError::InvalidLength) => {
                    &&& handle == old(self).spec_writable_handle()
                    &&& data@.len() == 0
                    &&& *final(self) == *old(self)
                },
            },
    {
        if handle != self.writable_handle {
            return Err(WriteError::Unwritable);
        }
        if data.len() == 0 {
            return Err(WriteError::InvalidLength);
        }
        let value = vstd::slice::slice_to_vec(data);
        self.attributes[self.writable_index].value = value;
        proof {
            let before = old(self)@;
            let after = self@;
            let w = self.writable_index as int;
            assert forall|k: int| 0 <= k < before.len() implies #[trigger] after[k] == with_value(
                before,
                handle,
                data@,
            )[k] by {
                if k < w {
                    assert(before[k].handle < before[w].handle);
                } else if k > w {
                    assert(before[w].handle < before[k].handle);
                }
            }
            lemma_shape_keeps_validity(before, after, self.writable_handle);
            assert forall|i: int, e: int| #[trigger]
                ends_group(before, i, e) implies ends_group(after, i, e) by {
                lemma_shape_keeps_groups(before, after, i, e);
            }
        }
        Ok(())
    }

    /// The last attribute of the group that the attribute at `handle` opens,
    /// or nothing where no attribute at `handle` opens a group.
    pub fn group_end(&self, handle: u16) -> (last: Option<&Attribute>)
        requires
            self.well_formed(),
        ensures
            group_end_is(
                self@,
                handle,
                match last {
                    Some(a) => Some(a@),
                    None => None,
                },
            ),
            last matches Some(a) ==> self.attributes().contains(*a),
    {
        let n = self.attributes.len();
        let mut i: usize = 0;
        while i < n
            invariant
                n == self.attributes.len(),
                self.well_formed(),
                0 <= i <= n,
                forall|k: int| 0 <= k < i ==> (#[trigger] self@[k]).handle != handle,
            decreases n - i,
        {
            if self.attributes[i].handle == handle {
                match self.group_ends[i] {
                    Some(e) => {
                        return Some(&self.attributes[e]);
                    },
                    None => {
                        return None;
                    },
                }
            }
            i = i + 1;
        }
        None
    }
}

} // verus!
