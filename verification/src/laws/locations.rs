//! Item locations: where one of several items lies.

use vstd::prelude::*;

use crate::cut::lemma_skip_uint;
use crate::endian::be_bytes;
use crate::endian::law_read_written_uint;
use crate::endian::lemma_be_bytes_len;
use crate::endian::lemma_uint_1_3;
use crate::endian::uint_at;
use crate::endian::values_of;
use crate::error::Error;
use crate::item::IlocLayout;
use crate::item::LocationView;
use crate::item::iloc_extent;
use crate::item::iloc_extents;
use crate::item::iloc_item;
use crate::item::iloc_items;
use crate::item::iloc_location;
use crate::layout::lemma_values;

verus! {

/// The form of an item location box: its version and the widths of its fields, in
/// bytes. Version 0 has no index; the bits that would give its width are there.
pub ghost struct Form {
    pub version: u8,
    pub offset_size: u8,
    pub length_size: u8,
    pub base_offset_size: u8,
    pub low_bits: u8,
}

impl Form {
    /// Whether there is such a form.
    pub open spec fn is_valid(self) -> bool {
        &&& self.version <= 2
        &&& self.offset_size < 16
        &&& self.length_size < 16
        &&& self.base_offset_size < 16
        &&& self.low_bits < 16
    }

    /// The width of an index.
    pub open spec fn index_size(self) -> u8 {
        if self.version == 0 {
            0
        } else {
            self.low_bits
        }
    }

    /// The width of an item ID and of the number of items.
    pub open spec fn id_size(self) -> nat {
        if self.version == 2 {
            4
        } else {
            2
        }
    }

    /// The width of an extent.
    pub open spec fn extent_size(self) -> int {
        self.index_size() + self.offset_size + self.length_size
    }

    /// Whether the fields of an extent have widths that are supported.
    pub open spec fn supports_extents(self) -> bool {
        &&& self.index_size() == 0 || self.index_size() == 4 || self.index_size() == 8
        &&& self.offset_size == 0 || self.offset_size == 4 || self.offset_size == 8
        &&& self.length_size == 0 || self.length_size == 4 || self.length_size == 8
    }

    /// Whether base offsets have a width that is supported.
    pub open spec fn supports_base(self) -> bool {
        self.base_offset_size == 0 || self.base_offset_size == 4 || self.base_offset_size == 8
    }

    /// The same as a layout.
    pub open spec fn layout(self) -> IlocLayout {
        IlocLayout {
            version: self.version as u32,
            offset_size: self.offset_size as usize,
            length_size: self.length_size as usize,
            base_offset_size: self.base_offset_size as usize,
            index_size: self.index_size() as usize,
        }
    }
}

/// What an item location box says of one item. The construction method is the low
/// half of the second of two bytes; version 0 has neither of them.
pub ghost struct Entry {
    pub id: u32,
    pub method_bytes: (u8, u8),
    pub data_reference: u16,
    pub base_offset: u64,
    pub extents: Seq<(u64, u64, u64)>,
}

impl Entry {
    /// The construction method.
    pub open spec fn method(self, form: Form) -> u8 {
        if form.version == 0 {
            0
        } else {
            self.method_bytes.1 % 16
        }
    }

    /// Where the item lies.
    pub open spec fn location(self, form: Form) -> LocationView {
        LocationView {
            construction_method: self.method(form),
            extents: self.extents,
            base_offset: self.base_offset,
        }
    }

    /// Whether the numbers fit in their fields.
    pub open spec fn fits(self, form: Form) -> bool {
        &&& self.id < values_of(form.id_size())
        &&& self.base_offset < values_of(form.base_offset_size as nat)
        &&& self.extents.len() < 0x1_0000
        &&& forall|i: int|
            0 <= i < self.extents.len() ==> extent_fits(form, #[trigger] self.extents[i])
    }

    /// Whether the item lies in this very file, as far as the file is concerned.
    pub open spec fn is_internal(self, form: Form) -> bool {
        self.method(form) == 0 ==> self.data_reference == 0
    }

    /// The fields up to the extents.
    pub open spec fn head(self, form: Form) -> Seq<u8> {
        be_bytes(self.id as nat, form.id_size()) + method_field(form, self.method_bytes) + be_bytes(
            self.data_reference as nat,
            2,
        ) + be_bytes(self.base_offset as nat, form.base_offset_size as nat) + be_bytes(
            self.extents.len(),
            2,
        )
    }

    /// The bytes of the entry.
    pub open spec fn bytes(self, form: Form) -> Seq<u8> {
        self.head(form) + extents_bytes(form, self.extents)
    }
}

/// The two bytes with the construction method.
pub open spec fn method_field(form: Form, method_bytes: (u8, u8)) -> Seq<u8> {
    if form.version == 0 {
        Seq::empty()
    } else {
        seq![method_bytes.0, method_bytes.1]
    }
}

/// Whether index, offset and length fit in their fields.
pub open spec fn extent_fits(form: Form, extent: (u64, u64, u64)) -> bool {
    &&& extent.0 < values_of(form.index_size() as nat)
    &&& extent.1 < values_of(form.offset_size as nat)
    &&& extent.2 < values_of(form.length_size as nat)
}

/// Index, offset and length.
pub open spec fn one_extent_bytes(form: Form, extent: (u64, u64, u64)) -> Seq<u8> {
    be_bytes(extent.0 as nat, form.index_size() as nat) + be_bytes(
        extent.1 as nat,
        form.offset_size as nat,
    ) + be_bytes(extent.2 as nat, form.length_size as nat)
}

/// Extents one after the other.
pub open spec fn extents_bytes(form: Form, extents: Seq<(u64, u64, u64)>) -> Seq<u8>
    decreases extents.len(),
{
    if extents.len() == 0 {
        Seq::empty()
    } else {
        one_extent_bytes(form, extents[0]) + extents_bytes(form, extents.skip(1))
    }
}

/// Entries one after the other.
pub open spec fn entries_bytes(form: Form, entries: Seq<Entry>) -> Seq<u8>
    decreases entries.len(),
{
    if entries.len() == 0 {
        Seq::empty()
    } else {
        entries[0].bytes(form) + entries_bytes(form, entries.skip(1))
    }
}

/// The body of an item location box: version, flags, widths, the number of entries,
/// and the entries.
pub open spec fn table_bytes(form: Form, flags: Seq<u8>, count: nat, entries: Seq<u8>) -> Seq<u8> {
    seq![form.version] + flags + seq![
        (form.offset_size * 16 + form.length_size) as u8,
        (form.base_offset_size * 16 + form.low_bits) as u8,
    ] + be_bytes(count, form.id_size()) + entries
}

/// Whether an entry can be read by one who looks for the item `wanted`.
pub open spec fn is_readable(form: Form, entry: Entry, wanted: u32) -> bool {
    &&& entry.fits(form)
    &&& entry.is_internal(form)
    &&& form.supports_base()
    &&& entry.id == wanted && entry.extents.len() > 0 ==> form.supports_extents()
}

proof fn lemma_extents_len(form: Form, extents: Seq<(u64, u64, u64)>)
    ensures
        extents_bytes(form, extents).len() == extents.len() * form.extent_size(),
    decreases extents.len(),
{
    if extents.len() > 0 {
        let extent = extents[0];
        lemma_be_bytes_len(extent.0 as nat, form.index_size() as nat);
        lemma_be_bytes_len(extent.1 as nat, form.offset_size as nat);
        lemma_be_bytes_len(extent.2 as nat, form.length_size as nat);
        lemma_extents_len(form, extents.skip(1));
        let (n, len) = (extents.len() as int, form.extent_size());
        assert(n * len == len + (n - 1) * len) by (nonlinear_arith);
    } else {
        assert(0 * form.extent_size() == 0) by (nonlinear_arith);
    }
}

/// The bytes from the `i`th extent on.
proof fn lemma_extents_from(form: Form, extents: Seq<(u64, u64, u64)>, rest: Seq<u8>, i: int)
    requires
        0 <= i <= extents.len(),
    ensures
        0 <= i * form.extent_size() <= extents_bytes(form, extents).len(),
        (extents_bytes(form, extents) + rest).skip(i * form.extent_size()) == extents_bytes(
            form,
            extents.skip(i),
        ) + rest,
    decreases i,
{
    let len = form.extent_size();
    let s = extents_bytes(form, extents) + rest;
    if i == 0 {
        assert(0 * len == 0) by (nonlinear_arith);
        assert(extents.skip(0) =~= extents);
        assert(s.skip(0) =~= s);
    } else {
        let extent = extents[0];
        let others = extents.skip(1);
        let t = extents_bytes(form, others) + rest;
        lemma_be_bytes_len(extent.0 as nat, form.index_size() as nat);
        lemma_be_bytes_len(extent.1 as nat, form.offset_size as nat);
        lemma_be_bytes_len(extent.2 as nat, form.length_size as nat);
        assert(one_extent_bytes(form, extent).len() == len);
        lemma_extents_from(form, others, rest, i - 1);
        assert(i * len == len + (i - 1) * len) by (nonlinear_arith);
        assert(s.skip(len) =~= t);
        assert(s.skip(i * len) =~= t.skip((i - 1) * len));
        assert(others.skip(i - 1) =~= extents.skip(i));
    }
}

/// The first extent is read back.
proof fn lemma_first_extent(form: Form, extent: (u64, u64, u64), rest: Seq<u8>)
    requires
        extent_fits(form, extent),
    ensures
        ({
            let s = one_extent_bytes(form, extent) + rest;
            let (a, b, c) = (
                form.index_size() as int,
                form.offset_size as int,
                form.length_size as int,
            );
            &&& uint_at(s, 0, a) == extent.0
            &&& uint_at(s, a, b) == extent.1
            &&& uint_at(s, a + b, c) == extent.2
            &&& s.len() >= a + b + c
        }),
{
    let s = one_extent_bytes(form, extent) + rest;
    let (a, b, c) = (form.index_size() as int, form.offset_size as int, form.length_size as int);
    law_read_written_uint(extent.0 as nat, a as nat);
    law_read_written_uint(extent.1 as nat, b as nat);
    law_read_written_uint(extent.2 as nat, c as nat);
    assert(s.subrange(0, a) =~= be_bytes(extent.0 as nat, a as nat));
    assert(s.subrange(a, a + b) =~= be_bytes(extent.1 as nat, b as nat));
    assert(s.subrange(a + b, a + b + c) =~= be_bytes(extent.2 as nat, c as nat));
}

/// Extents are read back.
proof fn lemma_read_extents(form: Form, extents: Seq<(u64, u64, u64)>, rest: Seq<u8>)
    requires
        extents.len() > 0 ==> form.supports_extents(),
        forall|i: int| 0 <= i < extents.len() ==> extent_fits(form, #[trigger] extents[i]),
    ensures
        iloc_extents(extents_bytes(form, extents) + rest, extents.len(), form.layout()) == Ok::<
            _,
            Error,
        >(extents),
{
    let s = extents_bytes(form, extents) + rest;
    let layout = form.layout();
    let len = form.extent_size();
    assert(layout.extent_len() == len);
    lemma_extents_len(form, extents);
    if extents.len() > 0 {
        assert(len <= extents.len() * len) by (nonlinear_arith)
            requires
                extents.len() > 0,
                len >= 0,
        ;
        assert forall|i: int| 0 <= i < extents.len() implies #[trigger] iloc_extent(s, i, layout)
            == extents[i] by {
            let tail = extents.skip(i);
            let t = extents_bytes(form, tail) + rest;
            lemma_extents_from(form, extents, rest, i);
            assert(tail[0] == extents[i]);
            assert(t =~= one_extent_bytes(form, tail[0]) + (extents_bytes(form, tail.skip(1))
                + rest));
            lemma_first_extent(form, tail[0], extents_bytes(form, tail.skip(1)) + rest);
            let (a, b, c) = (
                form.index_size() as int,
                form.offset_size as int,
                form.length_size as int,
            );
            lemma_skip_uint(s, i * len, 0, a);
            lemma_skip_uint(s, i * len, a, b);
            lemma_skip_uint(s, i * len, a + b, c);
        }
        assert(Seq::new(extents.len(), |i: int| iloc_extent(s, i, layout)) =~= extents);
    } else {
        assert(extents =~= Seq::empty());
    }
}

/// The fields of an entry in front of its extents are read back.
proof fn lemma_head(form: Form, entry: Entry, rest: Seq<u8>)
    requires
        form.is_valid(),
        entry.fits(form),
    ensures
        ({
            let s = entry.head(form) + rest;
            let n = form.id_size() as int;
            let m: int = if form.version == 0 { 0 } else { 2 };
            let b = form.base_offset_size as int;
            &&& entry.head(form).len() == n + m + 4 + b
            &&& uint_at(s, 0, n) == entry.id
            &&& form.version != 0 ==> s[n + 1] == entry.method_bytes.1
            &&& uint_at(s, n + m, 2) == entry.data_reference
            &&& uint_at(s, n + m + 2, b) == entry.base_offset
            &&& uint_at(s, n + m + 2 + b, 2) == entry.extents.len()
            &&& s.skip(n + m + 4 + b) == rest
        }),
{
    let s = entry.head(form) + rest;
    let n = form.id_size() as int;
    let m: int = if form.version == 0 {
        0
    } else {
        2
    };
    let b = form.base_offset_size as int;
    lemma_values();
    law_read_written_uint(entry.id as nat, n as nat);
    law_read_written_uint(entry.data_reference as nat, 2);
    law_read_written_uint(entry.base_offset as nat, b as nat);
    law_read_written_uint(entry.extents.len(), 2);
    let first = be_bytes(entry.id as nat, n as nat);
    let second = method_field(form, entry.method_bytes);
    assert(second.len() == m);
    assert(s.subrange(0, n) =~= first);
    assert(s.subrange(n + m, n + m + 2) =~= be_bytes(entry.data_reference as nat, 2));
    assert(s.subrange(n + m + 2, n + m + 2 + b) =~= be_bytes(entry.base_offset as nat, b as nat));
    assert(s.subrange(n + m + 2 + b, n + m + 4 + b) =~= be_bytes(entry.extents.len(), 2));
    assert(s.skip(n + m + 4 + b) =~= rest);
}

/// An entry is read back.
proof fn lemma_entry(form: Form, entry: Entry, rest: Seq<u8>, wanted: u32)
    requires
        form.is_valid(),
        is_readable(form, entry, wanted),
    ensures
        iloc_item(entry.bytes(form) + rest, form.layout(), wanted) == Ok::<_, Error>(
            (
                if entry.id == wanted {
                    Some(entry.location(form))
                } else {
                    None
                },
                rest,
            ),
        ),
{
    let s = entry.bytes(form) + rest;
    let extents = extents_bytes(form, entry.extents) + rest;
    assert(s =~= entry.head(form) + extents);
    lemma_head(form, entry, extents);
    lemma_extents_len(form, entry.extents);
    if entry.id == wanted {
        lemma_read_extents(form, entry.extents, rest);
    }
    let layout = form.layout();
    let head = entry.head(form).len() as int;
    let len = entry.extents.len() * form.extent_size();
    assert(layout.extent_len() == form.extent_size());
    assert(s.skip(head + len) =~= rest);
}

/// The box up to its entries is read back.
proof fn lemma_table(form: Form, flags: Seq<u8>, count: nat, entries: Seq<u8>, wanted: u32)
    requires
        form.is_valid(),
        flags.len() == 3,
        count < values_of(form.id_size()),
    ensures
        iloc_location(table_bytes(form, flags, count, entries), wanted) == iloc_items(
            entries,
            count,
            form.layout(),
            wanted,
            None,
        ),
{
    let s = table_bytes(form, flags, count, entries);
    let n = form.id_size();
    law_read_written_uint(count, n);
    lemma_uint_1_3(s, 0);
    assert(s[0] == form.version);
    assert(s[4] == form.offset_size * 16 + form.length_size);
    assert(s[5] == form.base_offset_size * 16 + form.low_bits);
    assert(IlocLayout::of(s) == form.layout());
    assert(s.subrange(6, 6 + n as int) =~= be_bytes(count, n));
    assert(s.skip(6 + n as int) =~= entries);
}

/// Entries of other items leave what was found.
proof fn lemma_others(
    form: Form,
    entries: Seq<Entry>,
    rest: Seq<u8>,
    more: nat,
    wanted: u32,
    found: Option<LocationView>,
)
    requires
        form.is_valid(),
        forall|i: int|
            0 <= i < entries.len() ==> is_readable(form, #[trigger] entries[i], wanted)
                && entries[i].id != wanted,
    ensures
        iloc_items(
            entries_bytes(form, entries) + rest,
            entries.len() + more,
            form.layout(),
            wanted,
            found,
        ) == iloc_items(rest, more, form.layout(), wanted, found),
    decreases entries.len(),
{
    if entries.len() == 0 {
        assert(entries_bytes(form, entries) + rest =~= rest);
    } else {
        let others = entries.skip(1);
        let after = entries_bytes(form, others) + rest;
        assert(is_readable(form, entries[0], wanted));
        lemma_entry(form, entries[0], after, wanted);
        assert(entries_bytes(form, entries) + rest =~= entries[0].bytes(form) + after);
        assert forall|i: int| 0 <= i < others.len() implies is_readable(
            form,
            #[trigger] others[i],
            wanted,
        ) && others[i].id != wanted by {
            assert(others[i] == entries[i + 1]);
        }
        lemma_others(form, others, rest, more, wanted, found);
        assert((entries.len() + more - 1) as nat == others.len() + more);
    }
}

/// Entries up to one of the item are read up to that.
proof fn lemma_up_to(
    form: Form,
    entries: Seq<Entry>,
    rest: Seq<u8>,
    more: nat,
    wanted: u32,
    found: Option<LocationView>,
)
    requires
        form.is_valid(),
        entries.len() > 0,
        forall|i: int|
            0 <= i < entries.len() ==> is_readable(form, #[trigger] entries[i], wanted),
        entries.last().id == wanted,
    ensures
        iloc_items(
            entries_bytes(form, entries) + rest,
            entries.len() + more,
            form.layout(),
            wanted,
            found,
        ) == iloc_items(
            rest,
            more,
            form.layout(),
            wanted,
            Some(entries.last().location(form)),
        ),
    decreases entries.len(),
{
    let others = entries.skip(1);
    let after = entries_bytes(form, others) + rest;
    assert(is_readable(form, entries[0], wanted));
    lemma_entry(form, entries[0], after, wanted);
    assert(entries_bytes(form, entries) + rest =~= entries[0].bytes(form) + after);
    assert((entries.len() + more - 1) as nat == others.len() + more);
    if others.len() == 0 {
        assert(after =~= rest);
    } else {
        assert forall|i: int| 0 <= i < others.len() implies is_readable(
            form,
            #[trigger] others[i],
            wanted,
        ) by {
            assert(others[i] == entries[i + 1]);
        }
        assert(others.last() == entries.last());
        lemma_up_to(
            form,
            others,
            rest,
            more,
            wanted,
            if entries[0].id == wanted {
                Some(entries[0].location(form))
            } else {
                found
            },
        );
    }
}

/// Entries one after the other are those at the front and those behind.
proof fn lemma_concat(form: Form, front: Seq<Entry>, behind: Seq<Entry>)
    ensures
        entries_bytes(form, front + behind) == entries_bytes(form, front) + entries_bytes(
            form,
            behind,
        ),
    decreases front.len(),
{
    let all = front + behind;
    if front.len() == 0 {
        assert(all =~= behind);
        assert(entries_bytes(form, front) + entries_bytes(form, behind) =~= entries_bytes(
            form,
            behind,
        ));
    } else {
        assert(all.skip(1) =~= front.skip(1) + behind);
        assert(all[0] == front[0]);
        lemma_concat(form, front.skip(1), behind);
        assert(entries_bytes(form, all) =~= entries_bytes(form, front) + entries_bytes(
            form,
            behind,
        ));
    }
}

/// Of several entries the last one of the item says where it lies, whatever the
/// version and the widths. Those of other items make no difference, before it or
/// behind it, and what comes after as many entries as are counted is not looked at.
pub proof fn law_last_entry_places(
    form: Form,
    flags: Seq<u8>,
    before: Seq<Entry>,
    entry: Entry,
    behind: Seq<Entry>,
    rest: Seq<u8>,
)
    requires
        form.is_valid(),
        flags.len() == 3,
        before.len() + 1 + behind.len() < values_of(form.id_size()),
        is_readable(form, entry, entry.id),
        forall|i: int|
            0 <= i < before.len() ==> is_readable(form, #[trigger] before[i], entry.id),
        forall|i: int|
            0 <= i < behind.len() ==> is_readable(form, #[trigger] behind[i], entry.id)
                && behind[i].id != entry.id,
    ensures
        iloc_location(
            table_bytes(
                form,
                flags,
                before.len() + 1 + behind.len(),
                entries_bytes(form, before.push(entry) + behind) + rest,
            ),
            entry.id,
        ) == Ok::<_, Error>(
            Some(
                (LocationView {
                    construction_method: if form.version == 0 {
                        0
                    } else {
                        (entry.method_bytes.1 % 16) as u8
                    },
                    extents: entry.extents,
                    base_offset: entry.base_offset,
                }),
            ),
        ),
{
    let front = before.push(entry);
    let count = before.len() + 1 + behind.len();
    let after = entries_bytes(form, behind) + rest;
    let all = entries_bytes(form, front + behind) + rest;
    lemma_table(form, flags, count, all, entry.id);
    lemma_concat(form, front, behind);
    assert(all =~= entries_bytes(form, front) + after);
    assert forall|i: int| 0 <= i < front.len() implies is_readable(
        form,
        #[trigger] front[i],
        entry.id,
    ) by {
        if i < before.len() {
            assert(front[i] == before[i]);
        }
    }
    lemma_up_to(form, front, after, behind.len(), entry.id, None);
    lemma_others(form, behind, rest, 0, entry.id, Some(entry.location(form)));
}

/// An item without an entry lies nowhere.
pub proof fn law_no_entry(
    form: Form,
    flags: Seq<u8>,
    entries: Seq<Entry>,
    rest: Seq<u8>,
    wanted: u32,
)
    requires
        form.is_valid(),
        flags.len() == 3,
        entries.len() < values_of(form.id_size()),
        forall|i: int|
            0 <= i < entries.len() ==> is_readable(form, #[trigger] entries[i], wanted)
                && entries[i].id != wanted,
    ensures
        iloc_location(
            table_bytes(form, flags, entries.len(), entries_bytes(form, entries) + rest),
            wanted,
        ) == Ok::<_, Error>(None::<LocationView>),
{
    lemma_table(form, flags, entries.len(), entries_bytes(form, entries) + rest, wanted);
    lemma_others(form, entries, rest, 0, wanted, None);
}

/// Entries that can be read do not keep those behind them from being read.
proof fn lemma_over(
    form: Form,
    entries: Seq<Entry>,
    rest: Seq<u8>,
    more: nat,
    wanted: u32,
    found: Option<LocationView>,
)
    requires
        form.is_valid(),
        forall|i: int|
            0 <= i < entries.len() ==> is_readable(form, #[trigger] entries[i], wanted),
    ensures
        exists|then: Option<LocationView>|
            iloc_items(
                entries_bytes(form, entries) + rest,
                entries.len() + more,
                form.layout(),
                wanted,
                found,
            ) == #[trigger] iloc_items(rest, more, form.layout(), wanted, then),
    decreases entries.len(),
{
    if entries.len() == 0 {
        assert(entries_bytes(form, entries) + rest =~= rest);
        assert(iloc_items(
            entries_bytes(form, entries) + rest,
            entries.len() + more,
            form.layout(),
            wanted,
            found,
        ) == iloc_items(rest, more, form.layout(), wanted, found));
    } else {
        let others = entries.skip(1);
        let after = entries_bytes(form, others) + rest;
        assert(is_readable(form, entries[0], wanted));
        lemma_entry(form, entries[0], after, wanted);
        assert(entries_bytes(form, entries) + rest =~= entries[0].bytes(form) + after);
        assert((entries.len() + more - 1) as nat == others.len() + more);
        assert forall|i: int| 0 <= i < others.len() implies is_readable(
            form,
            #[trigger] others[i],
            wanted,
        ) by {
            assert(others[i] == entries[i + 1]);
        }
        lemma_over(
            form,
            others,
            rest,
            more,
            wanted,
            if entries[0].id == wanted {
                Some(entries[0].location(form))
            } else {
                found
            },
        );
    }
}

/// The first entry that cannot be read is an error, however many are counted.
proof fn lemma_unreadable(
    form: Form,
    flags: Seq<u8>,
    before: Seq<Entry>,
    rest: Seq<u8>,
    more: nat,
    wanted: u32,
    e: Error,
)
    requires
        form.is_valid(),
        flags.len() == 3,
        more > 0,
        before.len() + more < values_of(form.id_size()),
        forall|i: int| 0 <= i < before.len() ==> is_readable(form, #[trigger] before[i], wanted),
        iloc_item(rest, form.layout(), wanted) == Err::<(Option<LocationView>, Seq<u8>), _>(e),
    ensures
        iloc_location(
            table_bytes(form, flags, before.len() + more, entries_bytes(form, before) + rest),
            wanted,
        ) == Err::<Option<LocationView>, _>(e),
{
    lemma_table(
        form,
        flags,
        before.len() + more,
        entries_bytes(form, before) + rest,
        wanted,
    );
    lemma_over(form, before, rest, more, wanted, None);
}

/// Data in another file is not supported, of whichever item: an entry with the
/// construction method 0 and a data reference is refused.
pub proof fn law_external_data(
    form: Form,
    flags: Seq<u8>,
    before: Seq<Entry>,
    entry: Entry,
    rest: Seq<u8>,
    more: nat,
    wanted: u32,
)
    requires
        form.is_valid(),
        flags.len() == 3,
        more > 0,
        before.len() + more < values_of(form.id_size()),
        forall|i: int| 0 <= i < before.len() ==> is_readable(form, #[trigger] before[i], wanted),
        entry.fits(form),
        form.version == 0 || entry.method_bytes.1 % 16 == 0,
        entry.data_reference != 0,
    ensures
        iloc_location(
            table_bytes(
                form,
                flags,
                before.len() + more,
                entries_bytes(form, before) + (entry.bytes(form) + rest),
            ),
            wanted,
        ) == Err::<Option<LocationView>, _>(
            Error::NotSupported("External data reference is not supported"),
        ),
{
    let s = entry.bytes(form) + rest;
    let extents = extents_bytes(form, entry.extents) + rest;
    assert(s =~= entry.head(form) + extents);
    lemma_head(form, entry, extents);
    lemma_unreadable(
        form,
        flags,
        before,
        s,
        more,
        wanted,
        Error::NotSupported("External data reference is not supported"),
    );
}

/// Base offsets of another width than 0, 4 and 8 bytes are refused at the first entry.
pub proof fn law_base_offset_width(
    form: Form,
    flags: Seq<u8>,
    entry: Entry,
    rest: Seq<u8>,
    count: nat,
    wanted: u32,
)
    requires
        form.is_valid(),
        flags.len() == 3,
        0 < count < values_of(form.id_size()),
        entry.fits(form),
        entry.is_internal(form),
        form.base_offset_size != 0,
        form.base_offset_size != 4,
        form.base_offset_size != 8,
    ensures
        iloc_location(table_bytes(form, flags, count, entry.bytes(form) + rest), wanted) == Err::<
            Option<LocationView>,
            _,
        >(Error::InvalidFormat("Invalid base_offset_size")),
{
    let s = entry.bytes(form) + rest;
    let extents = extents_bytes(form, entry.extents) + rest;
    assert(s =~= entry.head(form) + extents);
    lemma_head(form, entry, extents);
    lemma_table(form, flags, count, s, wanted);
}

/// Of the item itself, extents are refused whose index, offset or length has another
/// width than 0, 4 and 8 bytes.
pub proof fn law_extent_widths(
    form: Form,
    flags: Seq<u8>,
    before: Seq<Entry>,
    entry: Entry,
    rest: Seq<u8>,
    more: nat,
)
    requires
        form.is_valid(),
        flags.len() == 3,
        more > 0,
        before.len() + more < values_of(form.id_size()),
        forall|i: int| 0 <= i < before.len() ==> is_readable(form, #[trigger] before[i], entry.id),
        entry.fits(form),
        entry.is_internal(form),
        form.supports_base(),
        entry.extents.len() > 0,
    ensures
        ({
            let read = iloc_location(
                table_bytes(
                    form,
                    flags,
                    before.len() + more,
                    entries_bytes(form, before) + (entry.bytes(form) + rest),
                ),
                entry.id,
            );
            let index_size: u8 = if form.version == 0 { 0 } else { form.low_bits };
            if index_size != 0 && index_size != 4 && index_size != 8 {
                read == Err::<Option<LocationView>, _>(Error::InvalidFormat("Invalid index_size"))
            } else if form.offset_size != 0 && form.offset_size != 4 && form.offset_size != 8 {
                read == Err::<Option<LocationView>, _>(Error::InvalidFormat("Invalid offset_size"))
            } else if form.length_size != 0 && form.length_size != 4 && form.length_size != 8 {
                read == Err::<Option<LocationView>, _>(Error::InvalidFormat("Invalid length_size"))
            } else {
                true
            }
        }),
{
    let s = entry.bytes(form) + rest;
    let extents = extents_bytes(form, entry.extents) + rest;
    assert(s =~= entry.head(form) + extents);
    lemma_head(form, entry, extents);
    lemma_extents_len(form, entry.extents);
    let (n, len) = (entry.extents.len() as int, form.extent_size());
    assert(len <= n * len) by (nonlinear_arith)
        requires
            n > 0,
            len >= 0,
    ;
    assert(form.layout().extent_len() == len);
    if !form.supports_extents() {
        let read = iloc_item(s, form.layout(), entry.id);
        assert(read is Err);
        lemma_unreadable(form, flags, before, s, more, entry.id, read->Err_0);
    }
}

/// A box that ends in the middle of an entry is too small.
pub proof fn law_truncated_entry(
    form: Form,
    flags: Seq<u8>,
    before: Seq<Entry>,
    entry: Entry,
    there: nat,
    more: nat,
    wanted: u32,
)
    requires
        form.is_valid(),
        flags.len() == 3,
        more > 0,
        before.len() + more < values_of(form.id_size()),
        forall|i: int| 0 <= i < before.len() ==> is_readable(form, #[trigger] before[i], wanted),
        is_readable(form, entry, wanted),
        there < entry.bytes(form).len(),
    ensures
        iloc_location(
            table_bytes(
                form,
                flags,
                before.len() + more,
                entries_bytes(form, before) + entry.bytes(form).take(there as int),
            ),
            wanted,
        ) == Err::<Option<LocationView>, _>(Error::InvalidFormat("Box too small")),
{
    let whole = entry.bytes(form);
    let s = whole.take(there as int);
    let n = form.id_size() as int;
    let m: int = if form.version == 0 {
        0
    } else {
        2
    };
    let b = form.base_offset_size as int;
    let head = n + m + 4 + b;
    lemma_head(form, entry, extents_bytes(form, entry.extents));
    lemma_extents_len(form, entry.extents);
    assert(form.layout().extent_len() == form.extent_size());
    if there >= n + m + 2 {
        assert(s.subrange(n + m, n + m + 2) =~= whole.subrange(n + m, n + m + 2));
    }
    if there >= head {
        assert(s.subrange(0, n) =~= whole.subrange(0, n));
        assert(s.subrange(n + m + 2 + b, head) =~= whole.subrange(n + m + 2 + b, head));
        assert(s.skip(head).len() < entry.extents.len() * form.extent_size());
        if entry.extents.len() == 0 {
            assert(0 * form.extent_size() == 0) by (nonlinear_arith);
        }
    }
    lemma_unreadable(
        form,
        flags,
        before,
        s,
        more,
        wanted,
        Error::InvalidFormat("Box too small"),
    );
}

/// A box that ends before the number of its entries is too small, and one of another
/// version than 0, 1 and 2 is not supported.
pub proof fn law_table_errors(s: Seq<u8>, wanted: u32)
    ensures
        s.len() < 6 ==> iloc_location(s, wanted) == Err::<Option<LocationView>, _>(
            Error::InvalidFormat("Box too small"),
        ),
        s.len() >= 6 && s[0] > 2 ==> iloc_location(s, wanted) == Err::<Option<LocationView>, _>(
            Error::InvalidFormat("Unsupported ItemLocationBox"),
        ),
        6 <= s.len() < 8 && s[0] <= 2 ==> iloc_location(s, wanted) == Err::<
            Option<LocationView>,
            _,
        >(Error::InvalidFormat("Box too small")),
        6 <= s.len() < 10 && s[0] == 2 ==> iloc_location(s, wanted) == Err::<
            Option<LocationView>,
            _,
        >(Error::InvalidFormat("Box too small")),
{
    if s.len() >= 6 {
        lemma_uint_1_3(s, 0);
    }
}

} // verus!
