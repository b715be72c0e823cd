//! Item information: which of several items is the Exif item.

use vstd::prelude::*;

use crate::endian::be_bytes;
use crate::endian::law_read_written_uint;
use crate::endian::lemma_uint_1_3;
use crate::endian::uint_at;
use crate::error::Error;
use crate::fourcc::fourcc;
use crate::item::iinf_entries;
use crate::item::iinf_exif_id;
use crate::item::infe_exif_id;
use crate::laws::framing::LaidBox;
use crate::laws::framing::boxes_bytes;
use crate::laws::framing::boxes_fit;
use crate::laws::framing::lemma_first_box;
use crate::laws::framing::lemma_split;
use crate::layout::lemma_values;
use crate::splitter::child_box;

verus! {

/// The body of an item information entry: version, flags, item ID, protection index,
/// item type, and whatever comes after that. Version 2 has IDs of two bytes, version
/// 3 of four.
pub open spec fn entry_bytes(
    version: u8,
    flags: Seq<u8>,
    id: u32,
    protection: Seq<u8>,
    item_type: Seq<u8>,
    more: Seq<u8>,
) -> Seq<u8> {
    seq![version] + flags + be_bytes(
        id as nat,
        if version == 2 {
            2
        } else {
            4
        },
    ) + protection + item_type + more
}

/// An entry names its item if and only if the item type is `Exif`.
pub proof fn law_entry_names_exif(
    version: u8,
    flags: Seq<u8>,
    id: u32,
    protection: Seq<u8>,
    item_type: Seq<u8>,
    more: Seq<u8>,
)
    requires
        version == 2 && id < 0x1_0000 || version == 3,
        flags.len() == 3,
        protection.len() == 2,
        item_type.len() == 4,
    ensures
        infe_exif_id(entry_bytes(version, flags, id, protection, item_type, more)) == Ok::<
            _,
            Error,
        >(
            if item_type == seq![0x45u8, 0x78u8, 0x69u8, 0x66u8] {
                Some(id)
            } else {
                None
            },
        ),
{
    let s = entry_bytes(version, flags, id, protection, item_type, more);
    let n: nat = if version == 2 {
        2
    } else {
        4
    };
    lemma_values();
    law_read_written_uint(id as nat, n);
    lemma_uint_1_3(s, 0);
    assert(s[0] == version);
    assert(s.subrange(4, 4 + n as int) =~= be_bytes(id as nat, n));
    assert(s.subrange(4 + n as int + 2, 4 + n as int + 6) =~= item_type);
    assert(fourcc('E', 'x', 'i', 'f') =~= seq![0x45u8, 0x78u8, 0x69u8, 0x66u8]);
}

/// An entry that ends before its item type does is too small. One of another version
/// than 2 or 3 is not supported. There are no other errors.
pub proof fn law_entry_errors(s: Seq<u8>)
    ensures
        s.len() < 4 ==> infe_exif_id(s) == Err::<Option<u32>, _>(
            Error::InvalidFormat("Box too small"),
        ),
        s.len() >= 4 && s[0] != 2 && s[0] != 3 ==> infe_exif_id(s) == Err::<Option<u32>, _>(
            Error::InvalidFormat("Unsupported ItemInfoEntry"),
        ),
        s.len() >= 4 && s[0] == 2 ==> (infe_exif_id(s) is Err <==> s.len() < 12),
        s.len() >= 4 && s[0] == 3 ==> (infe_exif_id(s) is Err <==> s.len() < 14),
        s.len() >= 4 && (s[0] == 2 || s[0] == 3) && infe_exif_id(s) is Err ==> infe_exif_id(s)
            == Err::<Option<u32>, _>(Error::InvalidFormat("Box too small")),
{
    if s.len() >= 4 {
        lemma_uint_1_3(s, 0);
    }
}

/// Whether a box is an item information entry that names an Exif item.
pub open spec fn names_exif(entry: LaidBox, id: u32) -> bool {
    entry.boxtype == seq![0x69u8, 0x6eu8, 0x66u8, 0x65u8] && infe_exif_id(entry.body) == Ok::<
        _,
        Error,
    >(Some(id))
}

/// Whether a box is passed over: an item information entry of another item, or a box
/// of another type.
pub open spec fn names_nothing(entry: LaidBox) -> bool {
    entry.boxtype == seq![0x69u8, 0x6eu8, 0x66u8, 0x65u8] ==> infe_exif_id(entry.body) == Ok::<
        _,
        Error,
    >(None::<u32>)
}

/// Whether a box can be read as an entry.
pub open spec fn is_readable(entry: LaidBox) -> bool {
    names_nothing(entry) || exists|id: u32| names_exif(entry, id)
}

/// The body of an item information box: version, flags, the number of entries, and
/// the entries. That number has two bytes in version 0 and four in any other.
pub open spec fn table_bytes(version: u8, flags: Seq<u8>, count: nat, entries: Seq<u8>) -> Seq<u8> {
    seq![version] + flags + be_bytes(
        count,
        if version == 0 {
            2
        } else {
            4
        },
    ) + entries
}

/// Whether an item information box of that version can list as many entries.
pub open spec fn can_count(version: u8, count: nat) -> bool {
    if version == 0 {
        count < 0x1_0000
    } else {
        count < 0x1_0000_0000
    }
}

proof fn lemma_table(version: u8, flags: Seq<u8>, count: nat, entries: Seq<u8>, found: Option<u32>)
    requires
        flags.len() == 3,
        can_count(version, count),
    ensures
        iinf_exif_id(table_bytes(version, flags, count, entries), found) == iinf_entries(
            entries,
            count,
            found,
        ),
{
    let s = table_bytes(version, flags, count, entries);
    let n: nat = if version == 0 {
        2
    } else {
        4
    };
    lemma_values();
    law_read_written_uint(count, n);
    lemma_uint_1_3(s, 0);
    assert(s[0] == version);
    assert(s.subrange(4, 4 + n as int) =~= be_bytes(count, n));
    assert(s.skip(4 + n as int) =~= entries);
}

/// The entry type, spelt out.
proof fn lemma_infe()
    ensures
        fourcc('i', 'n', 'f', 'e') == seq![0x69u8, 0x6eu8, 0x66u8, 0x65u8],
{
    assert(fourcc('i', 'n', 'f', 'e') =~= seq![0x69u8, 0x6eu8, 0x66u8, 0x65u8]);
}

/// Boxes that are passed over leave what was found.
proof fn lemma_nothing_named(
    entries: Seq<LaidBox>,
    rest: Seq<u8>,
    more: nat,
    found: Option<u32>,
)
    requires
        boxes_fit(entries, rest),
        forall|i: int| 0 <= i < entries.len() ==> names_nothing(#[trigger] entries[i]),
    ensures
        iinf_entries(boxes_bytes(entries) + rest, entries.len() + more, found) == iinf_entries(
            rest,
            more,
            found,
        ),
    decreases entries.len(),
{
    if entries.len() == 0 {
        assert(boxes_bytes(entries) + rest =~= rest);
    } else {
        let others = entries.skip(1);
        lemma_infe();
        lemma_first_box(entries, rest);
        assert(names_nothing(entries[0]));
        assert forall|i: int| 0 <= i < others.len() implies names_nothing(#[trigger] others[i]) by {
            assert(others[i] == entries[i + 1]);
        }
        lemma_nothing_named(others, rest, more, found);
        assert((entries.len() + more - 1) as nat == others.len() + more);
    }
}

/// Entries up to one that names an Exif item are read up to that.
proof fn lemma_read_up_to(
    entries: Seq<LaidBox>,
    rest: Seq<u8>,
    more: nat,
    found: Option<u32>,
    id: u32,
)
    requires
        entries.len() > 0,
        boxes_fit(entries, rest),
        forall|i: int| 0 <= i < entries.len() ==> is_readable(#[trigger] entries[i]),
        names_exif(entries.last(), id),
    ensures
        iinf_entries(boxes_bytes(entries) + rest, entries.len() + more, found) == iinf_entries(
            rest,
            more,
            Some(id),
        ),
    decreases entries.len(),
{
    let others = entries.skip(1);
    lemma_infe();
    lemma_first_box(entries, rest);
    assert(is_readable(entries[0]));
    assert((entries.len() + more - 1) as nat == others.len() + more);
    if others.len() == 0 {
        assert(boxes_bytes(others) + rest =~= rest);
    } else {
        assert forall|i: int| 0 <= i < others.len() implies is_readable(#[trigger] others[i]) by {
            assert(others[i] == entries[i + 1]);
        }
        assert(others.last() == entries.last());
        if names_nothing(entries[0]) {
            lemma_read_up_to(others, rest, more, found, id);
        } else {
            let first = choose|first: u32| names_exif(entries[0], first);
            lemma_read_up_to(others, rest, more, Some(first), id);
        }
    }
}

/// Of several entries the last one that names an Exif item counts, wherever it stands:
/// those behind it that name none make no difference, nor does any before it. What
/// comes after as many boxes as are counted is not looked at.
pub proof fn law_last_exif_entry_counts(
    version: u8,
    flags: Seq<u8>,
    before: Seq<LaidBox>,
    entry: LaidBox,
    behind: Seq<LaidBox>,
    rest: Seq<u8>,
    id: u32,
    found: Option<u32>,
)
    requires
        flags.len() == 3,
        can_count(version, before.len() + 1 + behind.len()),
        boxes_fit(before.push(entry) + behind, rest),
        forall|i: int| 0 <= i < before.len() ==> is_readable(#[trigger] before[i]),
        names_exif(entry, id),
        forall|i: int| 0 <= i < behind.len() ==> names_nothing(#[trigger] behind[i]),
    ensures
        iinf_exif_id(
            table_bytes(
                version,
                flags,
                before.len() + 1 + behind.len(),
                boxes_bytes(before.push(entry) + behind) + rest,
            ),
            found,
        ) == Ok::<_, Error>(Some(id)),
{
    let front = before.push(entry);
    let all = front + behind;
    let after = boxes_bytes(behind) + rest;
    lemma_table(
        version,
        flags,
        before.len() + 1 + behind.len(),
        boxes_bytes(all) + rest,
        found,
    );
    lemma_split(front, behind, rest);
    assert forall|i: int| 0 <= i < front.len() implies is_readable(#[trigger] front[i]) by {
        if i < before.len() {
            assert(front[i] == before[i]);
        }
    }
    assert(boxes_bytes(all) + rest =~= boxes_bytes(front) + after);
    lemma_read_up_to(front, after, behind.len(), found, id);
    lemma_nothing_named(behind, rest, 0, Some(id));
}

/// Where no entry names an Exif item, what was found before stays.
pub proof fn law_no_exif_entry(
    version: u8,
    flags: Seq<u8>,
    entries: Seq<LaidBox>,
    rest: Seq<u8>,
    found: Option<u32>,
)
    requires
        flags.len() == 3,
        can_count(version, entries.len()),
        boxes_fit(entries, rest),
        forall|i: int| 0 <= i < entries.len() ==> names_nothing(#[trigger] entries[i]),
    ensures
        iinf_exif_id(
            table_bytes(version, flags, entries.len(), boxes_bytes(entries) + rest),
            found,
        ) == Ok::<_, Error>(found),
{
    lemma_table(version, flags, entries.len(), boxes_bytes(entries) + rest, found);
    lemma_nothing_named(entries, rest, 0, found);
}

/// Entries that are counted but cannot be read are an error: the first that is not a
/// box, or that is an entry with an error of its own.
pub proof fn law_unreadable_entry(
    version: u8,
    flags: Seq<u8>,
    before: Seq<LaidBox>,
    rest: Seq<u8>,
    more: nat,
    found: Option<u32>,
)
    requires
        flags.len() == 3,
        more > 0,
        can_count(version, before.len() + more),
        boxes_fit(before, rest),
        forall|i: int| 0 <= i < before.len() ==> is_readable(#[trigger] before[i]),
    ensures
        ({
            let read = iinf_exif_id(
                table_bytes(version, flags, before.len() + more, boxes_bytes(before) + rest),
                found,
            );
            match child_box(rest) {
                Err(e) => read == Err::<Option<u32>, _>(e),
                Ok(child) => child.boxtype == seq![0x69u8, 0x6eu8, 0x66u8, 0x65u8] ==> (
                infe_exif_id(child.body) matches Err(e) ==> read == Err::<Option<u32>, _>(e)),
            }
        }),
{
    lemma_table(version, flags, before.len() + more, boxes_bytes(before) + rest, found);
    lemma_infe();
    lemma_read_over(before, rest, more, found);
}

/// Entries that can be read do not keep those behind them from being read.
proof fn lemma_read_over(entries: Seq<LaidBox>, rest: Seq<u8>, more: nat, found: Option<u32>)
    requires
        boxes_fit(entries, rest),
        forall|i: int| 0 <= i < entries.len() ==> is_readable(#[trigger] entries[i]),
    ensures
        exists|then: Option<u32>|
            iinf_entries(boxes_bytes(entries) + rest, entries.len() + more, found)
                == #[trigger] iinf_entries(rest, more, then),
    decreases entries.len(),
{
    if entries.len() == 0 {
        assert(boxes_bytes(entries) + rest =~= rest);
        assert(iinf_entries(boxes_bytes(entries) + rest, entries.len() + more, found)
            == iinf_entries(rest, more, found));
    } else {
        let others = entries.skip(1);
        lemma_infe();
        lemma_first_box(entries, rest);
        assert(is_readable(entries[0]));
        assert((entries.len() + more - 1) as nat == others.len() + more);
        assert forall|i: int| 0 <= i < others.len() implies is_readable(#[trigger] others[i]) by {
            assert(others[i] == entries[i + 1]);
        }
        if names_nothing(entries[0]) {
            lemma_read_over(others, rest, more, found);
        } else {
            let first = choose|first: u32| names_exif(entries[0], first);
            lemma_read_over(others, rest, more, Some(first));
        }
    }
}

/// An item information box that ends before the number of its entries is too small.
pub proof fn law_no_entry_count(s: Seq<u8>, found: Option<u32>)
    requires
        s.len() < 4 || s[0] == 0 && s.len() < 6 || s[0] != 0 && s.len() < 8,
    ensures
        iinf_exif_id(s, found) == Err::<Option<u32>, _>(Error::InvalidFormat("Box too small")),
{
    if s.len() >= 4 {
        lemma_uint_1_3(s, 0);
    }
}

/// What was found before stays unless an entry names an Exif item, and has no other
/// bearing on what is read.
pub proof fn law_found_before(s: Seq<u8>, found: Option<u32>)
    ensures
        iinf_exif_id(s, found) == match iinf_exif_id(s, None) {
            Ok(None) => Ok(found),
            read => read,
        },
{
    let n: int = if uint_at(s, 0, 1) == 0 {
        2
    } else {
        4
    };
    if s.len() >= 4 + n {
        lemma_found_before(s.skip(4 + n), uint_at(s, 4, n), found);
    }
}

proof fn lemma_found_before(s: Seq<u8>, count: nat, found: Option<u32>)
    ensures
        iinf_entries(s, count, found) == match iinf_entries(s, count, None) {
            Ok(None) => Ok(found),
            read => read,
        },
    decreases count,
{
    if count > 0 {
        if let Ok(child) = child_box(s) {
            lemma_found_before(child.rest, (count - 1) as nat, found);
            if let Ok(Some(id)) = infe_exif_id(child.body) {
                lemma_found_before(child.rest, (count - 1) as nat, Some(id));
            }
        }
    }
}

} // verus!
