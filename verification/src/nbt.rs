//! A walk over the tags of a chunk's bytes that tells the bytes a decoder
//! can be handed from those it cannot.
//!
//! The bytes are NBT: a tree of tagged values. A compound is a run of
//! fields, each a tag, a name and a value, closed by the tag 0. A list is
//! an element tag, a length and as many values. Lengths are big-endian.

use vstd::prelude::*;
use vstd::string::StringSliceAdditionalSpecFns;

verus! {

/// How deep lists and compounds may be nested in bytes that count as safe.
pub const DEPTH_LIMIT: usize = 512;

/// The unsigned 16-bit number at `pos`.
pub open spec fn u16_at(data: Seq<u8>, pos: int) -> int {
    data[pos] * 256 + data[pos + 1]
}

/// The signed 32-bit number at `pos`.
pub open spec fn i32_at(data: Seq<u8>, pos: int) -> int {
    let unsigned = ((data[pos] * 256 + data[pos + 1]) * 256 + data[pos + 2]) * 256 + data[pos
        + 3];
    if unsigned >= 0x8000_0000 {
        unsigned - 0x1_0000_0000
    } else {
        unsigned
    }
}

/// The position behind the name or string that starts at `pos`: two bytes
/// of length, then as many bytes. `None` where the data end before.
pub open spec fn after_name(data: Seq<u8>, pos: int) -> Option<int> {
    if 0 <= pos && pos + 2 <= data.len() && pos + 2 + u16_at(data, pos) <= data.len() {
        Some(pos + 2 + u16_at(data, pos))
    } else {
        None
    }
}

/// The bytes of the name that starts at `pos`.
pub open spec fn name_at(data: Seq<u8>, pos: int) -> Seq<u8> {
    data.subrange(pos + 2, pos + 2 + u16_at(data, pos))
}

/// The width of a value of a tag of fixed width, and 0 for the other tags.
pub open spec fn fixed_width(tag: u8) -> int {
    if tag == 1 {
        1
    } else if tag == 2 {
        2
    } else if tag == 3 || tag == 5 {
        4
    } else if tag == 4 || tag == 6 {
        8
    } else {
        0
    }
}

/// The width of one element of an array tag, and 0 for the other tags.
pub open spec fn array_width(tag: u8) -> int {
    if tag == 7 {
        1
    } else if tag == 11 {
        4
    } else if tag == 12 {
        8
    } else {
        0
    }
}

/// The position behind the value of tag `tag` that starts at `pos`, where
/// the value is well formed: it ends within the data, every tag in it is one
/// of the twelve, no length is negative, a list of the tag 0 is empty, and
/// lists and compounds are nested no deeper than `depth`.
pub open spec fn after_value(data: Seq<u8>, pos: int, tag: u8, depth: nat) -> Option<int>
    decreases depth, 0nat,
{
    if pos < 0 || pos > data.len() {
        None
    } else if 1 <= tag <= 6 {
        if pos + fixed_width(tag) <= data.len() {
            Some(pos + fixed_width(tag))
        } else {
            None
        }
    } else if tag == 8 {
        after_name(data, pos)
    } else if tag == 7 || tag == 11 || tag == 12 {
        if pos + 4 <= data.len() && i32_at(data, pos) >= 0 && pos + 4 + i32_at(data, pos)
            * array_width(tag) <= data.len() {
            Some(pos + 4 + i32_at(data, pos) * array_width(tag))
        } else {
            None
        }
    } else if tag == 9 {
        if depth > 0 && pos + 5 <= data.len() && i32_at(data, pos + 1) >= 0 && data[pos] <= 12 {
            if data[pos] == 0 {
                if i32_at(data, pos + 1) == 0 {
                    Some(pos + 5)
                } else {
                    None
                }
            } else {
                after_elements(
                    data,
                    pos + 5,
                    data[pos],
                    i32_at(data, pos + 1) as nat,
                    (depth - 1) as nat,
                )
            }
        } else {
            None
        }
    } else if tag == 10 {
        if depth > 0 {
            after_fields(data, pos, (depth - 1) as nat)
        } else {
            None
        }
    } else {
        None
    }
}

/// The position behind `count` values of tag `tag` that follow each other
/// from `pos`, where each is well formed.
pub open spec fn after_elements(data: Seq<u8>, pos: int, tag: u8, count: nat, depth: nat) -> Option<
    int,
>
    decreases depth, count + 1,
{
    if count == 0 {
        if 0 <= pos <= data.len() {
            Some(pos)
        } else {
            None
        }
    } else {
        match after_value(data, pos, tag, depth) {
            Some(next) => after_elements(data, next, tag, (count - 1) as nat, depth),
            None => None,
        }
    }
}

/// The position behind the fields of a compound that start at `pos`, the
/// closing tag included, where each field is well formed.
pub open spec fn after_fields(data: Seq<u8>, pos: int, depth: nat) -> Option<int>
    decreases depth,
        (if 0 <= pos < data.len() {
            data.len() - pos + 1
        } else {
            0
        }) as nat,
{
    if 0 <= pos < data.len() {
        if data[pos] == 0 {
            Some(pos + 1)
        } else {
            match after_name(data, pos + 1) {
                Some(value) => match after_value(data, value, data[pos], depth) {
                    Some(next) => if pos < next <= data.len() {
                        after_fields(data, next, depth)
                    } else {
                        None
                    },
                    None => None,
                },
                None => None,
            }
        }
    } else {
        None
    }
}

/// A position as an unbounded integer.
pub open spec fn position(at: Option<usize>) -> Option<int> {
    match at {
        Some(pos) => Some(pos as int),
        None => None,
    }
}

/// The unsigned 16-bit number at `pos`.
fn read_u16(data: &Vec<u8>, pos: usize) -> (value: usize)
    requires
        pos + 2 <= data@.len(),
    ensures
        value == u16_at(data@, pos as int),
        value < 0x1_0000,
{
    let total = data.len();
    assert(pos + 2 <= total);
    (data[pos] as usize) * 256 + (data[pos + 1] as usize)
}

/// The signed 32-bit number at `pos`.
fn read_i32(data: &Vec<u8>, pos: usize) -> (value: i64)
    requires
        pos + 4 <= data@.len(),
    ensures
        value == i32_at(data@, pos as int),
        -0x8000_0000 <= value < 0x8000_0000,
{
    let total = data.len();
    assert(pos + 4 <= total);
    let unsigned: i64 = (((data[pos] as i64) * 256 + (data[pos + 1] as i64)) * 256 + (data[pos
        + 2] as i64)) * 256 + (data[pos + 3] as i64);
    if unsigned >= 0x8000_0000 {
        unsigned - 0x1_0000_0000
    } else {
        unsigned
    }
}

/// The position behind the name or string that starts at `pos`.
fn skip_name(data: &Vec<u8>, pos: usize) -> (next: Option<usize>)
    requires
        pos <= data@.len(),
    ensures
        position(next) == after_name(data@, pos as int),
        next matches Some(n) ==> pos + 2 <= n <= data@.len(),
{
    if data.len() - pos < 2 {
        return None;
    }
    let length = read_u16(data, pos);
    if data.len() - pos - 2 < length {
        return None;
    }
    Some(pos + 2 + length)
}

/// Whether the name that starts at `pos` is `name`.
fn name_is(data: &Vec<u8>, pos: usize, name: &str) -> (same: bool)
    requires
        after_name(data@, pos as int) is Some,
    ensures
        same == (name_at(data@, pos as int) == name.spec_bytes()),
{
    let wanted = name.as_bytes();
    let total = data.len();
    let length = read_u16(data, pos);
    if wanted.len() != length {
        return false;
    }
    let mut i: usize = 0;
    while i < length
        invariant
            i <= length,
            length == wanted@.len(),
            length == u16_at(data@, pos as int),
            pos + 2 + length <= data@.len(),
            data@.len() == total,
            wanted@ == name.spec_bytes(),
            forall|k: int| 0 <= k < i ==> data@[pos + 2 + k] == wanted@[k],
        decreases length - i,
    {
        if data[pos + 2 + i] != wanted[i] {
            assert(name_at(data@, pos as int)[i as int] != wanted@[i as int]);
            return false;
        }
        i += 1;
    }
    assert(name_at(data@, pos as int) =~= wanted@);
    true
}

/// The position behind the value of tag `tag` that starts at `pos`, or
/// `None` where the value is not well formed.
pub fn skip_value(data: &Vec<u8>, pos: usize, tag: u8, depth: usize) -> (next: Option<usize>)
    requires
        pos <= data@.len(),
    ensures
        position(next) == after_value(data@, pos as int, tag, depth as nat),
        next matches Some(n) ==> pos <= n <= data@.len(),
    decreases depth, 0nat,
{
    let left = data.len() - pos;
    if tag >= 1 && tag <= 6 {
        let width: usize = if tag == 1 {
            1
        } else if tag == 2 {
            2
        } else if tag == 3 || tag == 5 {
            4
        } else {
            8
        };
        if left >= width {
            Some(pos + width)
        } else {
            None
        }
    } else if tag == 8 {
        skip_name(data, pos)
    } else if tag == 7 || tag == 11 || tag == 12 {
        if left < 4 {
            return None;
        }
        let count = read_i32(data, pos);
        let width: i64 = if tag == 7 {
            1
        } else if tag == 11 {
            4
        } else {
            8
        };
        if count < 0 {
            return None;
        }
        let room: u64 = (left - 4) as u64;
        let size: u64 = (count * width) as u64;
        if room < size {
            return None;
        }
        Some(pos + 4 + size as usize)
    } else if tag == 9 {
        if depth == 0 || left < 5 {
            return None;
        }
        let element = data[pos];
        let count = read_i32(data, pos + 1);
        if count < 0 || element > 12 {
            return None;
        }
        if element == 0 {
            if count == 0 {
                Some(pos + 5)
            } else {
                None
            }
        } else {
            skip_elements(data, pos + 5, element, count as u64, depth - 1)
        }
    } else if tag == 10 {
        if depth == 0 {
            None
        } else {
            skip_fields(data, pos, depth - 1)
        }
    } else {
        None
    }
}

/// The position behind `count` values of tag `tag` from `pos`, or `None`
/// where one of them is not well formed.
pub fn skip_elements(data: &Vec<u8>, pos: usize, tag: u8, count: u64, depth: usize) -> (next:
    Option<usize>)
    requires
        pos <= data@.len(),
    ensures
        position(next) == after_elements(data@, pos as int, tag, count as nat, depth as nat),
        next matches Some(n) ==> pos <= n <= data@.len(),
    decreases depth, 1nat,
{
    let mut at = pos;
    let mut left = count;
    while left > 0
        invariant
            pos <= at <= data@.len(),
            after_elements(data@, pos as int, tag, count as nat, depth as nat) == after_elements(
                data@,
                at as int,
                tag,
                left as nat,
                depth as nat,
            ),
        decreases left,
    {
        match skip_value(data, at, tag, depth) {
            Some(next) => {
                at = next;
            },
            None => {
                return None;
            },
        }
        left -= 1;
    }
    Some(at)
}

/// The position behind the fields of a compound from `pos`, or `None` where
/// one of them is not well formed.
pub fn skip_fields(data: &Vec<u8>, pos: usize, depth: usize) -> (next: Option<usize>)
    requires
        pos <= data@.len(),
    ensures
        position(next) == after_fields(data@, pos as int, depth as nat),
        next matches Some(n) ==> pos <= n <= data@.len(),
    decreases depth, 1nat,
{
    let mut at = pos;
    loop
        invariant
            pos <= at <= data@.len(),
            after_fields(data@, pos as int, depth as nat) == after_fields(
                data@,
                at as int,
                depth as nat,
            ),
        decreases data@.len() - at,
    {
        if at >= data.len() {
            return None;
        }
        let tag = data[at];
        if tag == 0 {
            return Some(at + 1);
        }
        let value = match skip_name(data, at + 1) {
            Some(value) => value,
            None => {
                return None;
            },
        };
        let next = match skip_value(data, value, tag, depth) {
            Some(next) => next,
            None => {
                return None;
            },
        };
        at = next;
    }
}

/// Whether the fields of a block-state compound from `pos` would have a
/// decoder read an index table against an empty palette: a field `data`
/// stands beside a field `palette` that is an empty list. `seen_data` and
/// `seen_empty` say what the fields before `pos` have shown. `None` where a
/// field is not well formed.
pub open spec fn states_hazard(
    data: Seq<u8>,
    pos: int,
    depth: nat,
    seen_data: bool,
    seen_empty: bool,
) -> Option<bool>
    decreases
        (if 0 <= pos < data.len() {
            data.len() - pos
        } else {
            0
        }) as nat,
{
    if 0 <= pos < data.len() {
        if data[pos] == 0 {
            Some(seen_data && seen_empty)
        } else {
            match after_name(data, pos + 1) {
                Some(value) => match after_value(data, value, data[pos], depth) {
                    Some(next) => if pos < next <= data.len() {
                        states_hazard(
                            data,
                            next,
                            depth,
                            seen_data || name_at(data, pos + 1) == "data".spec_bytes(),
                            seen_empty || (name_at(data, pos + 1) == "palette".spec_bytes()
                                && data[pos] == 9 && i32_at(data, value + 1) == 0),
                        )
                    } else {
                        None
                    },
                    None => None,
                },
                None => None,
            }
        }
    } else {
        None
    }
}

/// Whether the field of a section with the name at `name`, the tag `tag` and
/// the value at `value` is safe: block states that are a compound hold no
/// index table beside an empty palette.
pub open spec fn section_field_safe(data: Seq<u8>, name: int, value: int, tag: u8, depth: nat) -> bool {
    name_at(data, name) == "block_states".spec_bytes() && tag == 10 ==> depth > 0
        && states_hazard(data, value, (depth - 1) as nat, false, false) == Some(false)
}

/// Whether the fields of a section from `pos` are well formed and safe.
pub open spec fn section_fields_safe(data: Seq<u8>, pos: int, depth: nat) -> bool
    decreases
        (if 0 <= pos < data.len() {
            data.len() - pos
        } else {
            0
        }) as nat,
{
    if 0 <= pos < data.len() {
        if data[pos] == 0 {
            true
        } else {
            match after_name(data, pos + 1) {
                Some(value) => match after_value(data, value, data[pos], depth) {
                    Some(next) => pos < next <= data.len() && section_field_safe(
                        data,
                        pos + 1,
                        value,
                        data[pos],
                        depth,
                    ) && section_fields_safe(data, next, depth),
                    None => false,
                },
                None => false,
            }
        }
    } else {
        false
    }
}

/// Whether the `count` sections that follow each other from `pos`, each a
/// compound, are well formed and safe.
pub open spec fn sections_safe(data: Seq<u8>, pos: int, count: nat, depth: nat) -> bool
    decreases count,
{
    if count == 0 {
        true
    } else {
        match after_value(data, pos, 10, depth) {
            Some(next) => depth > 0 && section_fields_safe(data, pos, (depth - 1) as nat)
                && sections_safe(data, next, (count - 1) as nat, depth),
            None => false,
        }
    }
}

/// Whether the field of a chunk with the name at `name`, the tag `tag` and
/// the value at `value` is safe: the height maps are no list, and sections
/// that are a list of compounds are safe each.
pub open spec fn chunk_field_safe(data: Seq<u8>, name: int, value: int, tag: u8, depth: nat) -> bool {
    &&& name_at(data, name) == "Heightmaps".spec_bytes() ==> tag != 9
    &&& name_at(data, name) == "sections".spec_bytes() && tag == 9 && data[value] == 10 ==> depth
        > 0 && sections_safe(data, value + 5, i32_at(data, value + 1) as nat, (depth - 1) as nat)
}

/// Whether the fields of a chunk from `pos` are well formed and safe.
pub open spec fn chunk_fields_safe(data: Seq<u8>, pos: int, depth: nat) -> bool
    decreases
        (if 0 <= pos < data.len() {
            data.len() - pos
        } else {
            0
        }) as nat,
{
    if 0 <= pos < data.len() {
        if data[pos] == 0 {
            true
        } else {
            match after_name(data, pos + 1) {
                Some(value) => match after_value(data, value, data[pos], depth) {
                    Some(next) => pos < next <= data.len() && chunk_field_safe(
                        data,
                        pos + 1,
                        value,
                        data[pos],
                        depth,
                    ) && chunk_fields_safe(data, next, depth),
                    None => false,
                },
                None => false,
            }
        }
    } else {
        false
    }
}

/// Whether the bytes of a chunk can be handed to the decoder. They begin
/// with a named compound whose fields are well formed throughout, nested no
/// deeper than `DEPTH_LIMIT`; its height maps are no list; and no section
/// holds an index table beside an empty palette.
pub open spec fn is_safe_chunk(data: Seq<u8>) -> bool {
    data.len() >= 1 && data[0] == 10 && match after_name(data, 1) {
        Some(start) => chunk_fields_safe(data, start, DEPTH_LIMIT as nat),
        None => false,
    }
}

/// Whether the fields of a block-state compound from `pos` hold an index
/// table beside an empty palette; `None` where a field is not well formed.
fn find_states_hazard(data: &Vec<u8>, pos: usize, depth: usize) -> (hazard: Option<bool>)
    requires
        pos <= data@.len(),
    ensures
        hazard == states_hazard(data@, pos as int, depth as nat, false, false),
{
    let mut at = pos;
    let mut seen_data = false;
    let mut seen_empty = false;
    loop
        invariant
            pos <= at <= data@.len(),
            states_hazard(data@, pos as int, depth as nat, false, false) == states_hazard(
                data@,
                at as int,
                depth as nat,
                seen_data,
                seen_empty,
            ),
        decreases data@.len() - at,
    {
        if at >= data.len() {
            return None;
        }
        let tag = data[at];
        if tag == 0 {
            return Some(seen_data && seen_empty);
        }
        let value = match skip_name(data, at + 1) {
            Some(value) => value,
            None => {
                return None;
            },
        };
        let next = match skip_value(data, value, tag, depth) {
            Some(next) => next,
            None => {
                return None;
            },
        };
        if name_is(data, at + 1, "data") {
            seen_data = true;
        }
        if tag == 9 && name_is(data, at + 1, "palette") {
            assert(value + 5 <= data@.len());
            if read_i32(data, value + 1) == 0 {
                seen_empty = true;
            }
        }
        at = next;
    }
}

/// Whether the fields of a section from `pos` are well formed and safe.
fn check_section_fields(data: &Vec<u8>, pos: usize, depth: usize) -> (safe: bool)
    requires
        pos <= data@.len(),
    ensures
        safe == section_fields_safe(data@, pos as int, depth as nat),
{
    let mut at = pos;
    loop
        invariant
            pos <= at <= data@.len(),
            section_fields_safe(data@, pos as int, depth as nat) == section_fields_safe(
                data@,
                at as int,
                depth as nat,
            ),
        decreases data@.len() - at,
    {
        if at >= data.len() {
            return false;
        }
        let tag = data[at];
        if tag == 0 {
            return true;
        }
        let value = match skip_name(data, at + 1) {
            Some(value) => value,
            None => {
                return false;
            },
        };
        let next = match skip_value(data, value, tag, depth) {
            Some(next) => next,
            None => {
                return false;
            },
        };
        if tag == 10 && name_is(data, at + 1, "block_states") {
            if depth == 0 {
                return false;
            }
            match find_states_hazard(data, value, depth - 1) {
                Some(false) => {},
                _ => {
                    return false;
                },
            }
        }
        at = next;
    }
}

/// Whether the `count` sections from `pos` are well formed and safe.
fn check_sections(data: &Vec<u8>, pos: usize, count: u64, depth: usize) -> (safe: bool)
    requires
        pos <= data@.len(),
    ensures
        safe == sections_safe(data@, pos as int, count as nat, depth as nat),
{
    let mut at = pos;
    let mut left = count;
    while left > 0
        invariant
            pos <= at <= data@.len(),
            sections_safe(data@, pos as int, count as nat, depth as nat) == sections_safe(
                data@,
                at as int,
                left as nat,
                depth as nat,
            ),
        decreases left,
    {
        let next = match skip_value(data, at, 10, depth) {
            Some(next) => next,
            None => {
                return false;
            },
        };
        if depth == 0 || !check_section_fields(data, at, depth - 1) {
            return false;
        }
        at = next;
        left -= 1;
    }
    true
}

/// Whether the fields of a chunk from `pos` are well formed and safe.
fn check_chunk_fields(data: &Vec<u8>, pos: usize, depth: usize) -> (safe: bool)
    requires
        pos <= data@.len(),
    ensures
        safe == chunk_fields_safe(data@, pos as int, depth as nat),
{
    let mut at = pos;
    loop
        invariant
            pos <= at <= data@.len(),
            chunk_fields_safe(data@, pos as int, depth as nat) == chunk_fields_safe(
                data@,
                at as int,
                depth as nat,
            ),
        decreases data@.len() - at,
    {
        if at >= data.len() {
            return false;
        }
        let tag = data[at];
        if tag == 0 {
            return true;
        }
        let value = match skip_name(data, at + 1) {
            Some(value) => value,
            None => {
                return false;
            },
        };
        let next = match skip_value(data, value, tag, depth) {
            Some(next) => next,
            None => {
                return false;
            },
        };
        if tag == 9 {
            if name_is(data, at + 1, "Heightmaps") {
                return false;
            }
            assert(value + 5 <= data@.len());
            if data[value] == 10 && name_is(data, at + 1, "sections") {
                let count = read_i32(data, value + 1);
                assert(count >= 0);
                if depth == 0 || !check_sections(data, value + 5, count as u64, depth - 1) {
                    return false;
                }
            }
        }
        at = next;
    }
}

/// Whether the bytes of a chunk can be handed to the decoder.
pub fn chunk_is_safe(data: &Vec<u8>) -> (safe: bool)
    ensures
        safe == is_safe_chunk(data@),
{
    if data.len() < 1 || data[0] != 10 {
        return false;
    }
    match skip_name(data, 1) {
        Some(start) => check_chunk_fields(data, start, DEPTH_LIMIT),
        None => false,
    }
}

} // verus!
