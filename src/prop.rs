//! Properties and the interpretation of their values.

use vstd::prelude::*;
use vstd::utf8::*;
use crate::byte_utils::{
    align_block, align_size, all_utf8, block_fits, block_value, blocks_for, cells_fit,
    cells_value, lemma_cells_of_slice, locate_block, read_number, nul_pieces, read_aligned_be_big_number, read_aligned_be_number,
    read_aligned_be_u32, read_aligned_sized_strings, read_name, span, text_at, BLOCK_SIZE,
};
use crate::device_tree::{InheritedValues, address_cells_name, size_cells_name};
use crate::error::{DeviceTreeError, Result};
use crate::header::DeviceTreeHeader;
use crate::text::{ends_with, has_prefix, has_suffix, starts_with_char, str_eq};

verus! {

/// The shapes that a property's value can take.
#[derive(Debug)]
pub enum PropertyValue {
    /// No bytes at all.
    Empty,
    /// One integer.
    Integer(u64),
    /// Several integers.
    Integers(Vec<u64>),
    /// A reference to another node, named by a `*-parent` property.
    PHandle(u32),
    /// One string.
    String(String),
    /// Several strings.
    Strings(Vec<String>),
    /// An address and the size of the region there.
    Address(u64, u64),
    /// Several address and size pairs.
    Addresses(Vec<(u64, u64)>),
    /// Child-bus address, parent-bus address and length of each mapped range.
    Ranges(Vec<(u128, u64, u64)>),
    /// A value that cannot be classified.
    Unknown,
}

/// A property value as mathematical data.
pub enum ValueView {
    Empty,
    Integer(u64),
    Integers(Seq<u64>),
    PHandle(u32),
    Text(Seq<char>),
    Texts(Seq<Seq<char>>),
    Address(u64, u64),
    Addresses(Seq<(u64, u64)>),
    Ranges(Seq<(u128, u64, u64)>),
    Unknown,
}

impl View for PropertyValue {
    type V = ValueView;

    open spec fn view(&self) -> ValueView {
        match self {
            PropertyValue::Empty => ValueView::Empty,
            PropertyValue::Integer(v) => ValueView::Integer(*v),
            PropertyValue::Integers(v) => ValueView::Integers(v@),
            PropertyValue::PHandle(v) => ValueView::PHandle(*v),
            PropertyValue::String(s) => ValueView::Text(s@),
            PropertyValue::Strings(v) => ValueView::Texts(v@.map_values(|s: String| s@)),
            PropertyValue::Address(a, s) => ValueView::Address(*a, *s),
            PropertyValue::Addresses(v) => ValueView::Addresses(v@),
            PropertyValue::Ranges(v) => ValueView::Ranges(v@),
            PropertyValue::Unknown => ValueView::Unknown,
        }
    }
}

/// A decoded value, or the error met on the way.
pub open spec fn value_result(r: Result<PropertyValue>) -> core::result::Result<
    ValueView,
    DeviceTreeError,
> {
    match r {
        Ok(v) => Ok(v@),
        Err(e) => Err(e),
    }
}

/// Text: the zero-terminated pieces of the payload, one or more, all UTF-8.
pub open spec fn text_value(raw: Seq<u8>) -> core::result::Result<ValueView, DeviceTreeError> {
    let pieces = nul_pieces(raw, 0);
    if !all_utf8(pieces) || pieces.len() == 0 {
        Err(DeviceTreeError::ParsingFailed)
    } else if pieces.len() == 1 {
        Ok(ValueView::Text(decode_utf8(pieces[0])))
    } else {
        Ok(ValueView::Texts(pieces.map_values(|p: Seq<u8>| decode_utf8(p))))
    }
}

/// The first block of the payload, if it has one.
pub open spec fn first_word(raw: Seq<u8>) -> Option<u32> {
    if block_fits(raw, 0) {
        Some(block_value(raw, 0) as u32)
    } else {
        None
    }
}

/// Address and size of `reg` group `i`, with groups of `a + s` cells.
pub open spec fn reg_group(raw: Seq<u8>, i: int, a: nat, s: nat) -> (u64, u64) {
    let base = i * (a + s);
    (cells_value(raw, base, a) as u64, cells_value(raw, base + a, s) as u64)
}

/// `reg` group `i` lies inside the payload.
pub open spec fn reg_group_fits(raw: Seq<u8>, i: int, a: nat, s: nat) -> bool {
    let base = i * (a + s);
    cells_fit(raw, base, a) && cells_fit(raw, base + a, s)
}

/// A `reg` payload read with `address_cells` and `size_cells` cells per group: groups are
/// counted in whole blocks (a partial group at the end is left out); one group is an
/// `Address`, more are `Addresses`. Widths that the readers cannot hold fail.
pub open spec fn reg_value(raw: Seq<u8>, address_cells: u64, size_cells: u64) -> core::result::Result<
    ValueView,
    DeviceTreeError,
> {
    let a = address_cells as nat;
    let s = size_cells as nat;
    if a > 2 || s > 2 || a + s == 0 {
        Err(DeviceTreeError::ParsingFailed)
    } else {
        let count = blocks_for(raw.len() as int) / ((a + s) as int);
        if count > 1 {
            if forall|i: int| 0 <= i < count ==> #[trigger] reg_group_fits(raw, i, a, s) {
                Ok(ValueView::Addresses(Seq::new(count as nat, |i: int| reg_group(raw, i, a, s))))
            } else {
                Err(DeviceTreeError::ParsingFailed)
            }
        } else if reg_group_fits(raw, 0, a, s) {
            Ok(ValueView::Address(reg_group(raw, 0, a, s).0, reg_group(raw, 0, a, s).1))
        } else {
            Err(DeviceTreeError::ParsingFailed)
        }
    }
}

/// Child address, parent address and length of `ranges` group `i`.
pub open spec fn range_group(raw: Seq<u8>, i: int, c: nat, p: nat, s: nat) -> (u128, u64, u64) {
    let base = i * (c + p + s);
    (
        cells_value(raw, base, c) as u128,
        cells_value(raw, base + c, p) as u64,
        cells_value(raw, base + c + p, s) as u64,
    )
}

/// `ranges` group `i` lies inside the payload.
pub open spec fn range_group_fits(raw: Seq<u8>, i: int, c: nat, p: nat, s: nat) -> bool {
    let base = i * (c + p + s);
    cells_fit(raw, base, c) && cells_fit(raw, base + c, p) && cells_fit(raw, base + c + p, s)
}

/// A `ranges` payload: groups of child-address, parent-address and size cells, counted in
/// whole blocks. Child addresses take up to four cells, the others up to two.
pub open spec fn ranges_value(
    raw: Seq<u8>,
    child_cells: u64,
    parent_cells: u64,
    size_cells: u64,
) -> core::result::Result<ValueView, DeviceTreeError> {
    let c = child_cells as nat;
    let p = parent_cells as nat;
    let s = size_cells as nat;
    if c > 4 || p > 2 || s > 2 || c + p + s == 0 {
        Err(DeviceTreeError::ParsingFailed)
    } else {
        let count = blocks_for(raw.len() as int) / ((c + p + s) as int);
        if forall|i: int| 0 <= i < count ==> #[trigger] range_group_fits(raw, i, c, p, s) {
            Ok(ValueView::Ranges(Seq::new(count as nat, |i: int| range_group(raw, i, c, p, s))))
        } else {
            Err(DeviceTreeError::ParsingFailed)
        }
    }
}

/// Every byte is ASCII.
pub open spec fn all_ascii(raw: Seq<u8>) -> bool {
    forall|i: int| 0 <= i < raw.len() ==> #[trigger] raw[i] < 128
}

/// The payload looks like zero-terminated ASCII text.
pub open spec fn looks_like_text(raw: Seq<u8>) -> bool {
    raw[0] != 0 && raw[raw.len() - 1] == 0 && all_ascii(raw)
}

/// The value of a property whose name says nothing of its shape: text when the length is
/// not a whole number of blocks or the bytes look like text, else big-endian 32-bit words.
pub open spec fn guessed_value(raw: Seq<u8>) -> core::result::Result<ValueView, DeviceTreeError> {
    if raw.len() % 4 != 0 || looks_like_text(raw) {
        text_value(raw)
    } else if raw.len() / 4 > 1 {
        Ok(
            ValueView::Integers(
                Seq::new((raw.len() / 4) as nat, |i: int| block_value(raw, i) as u64),
            ),
        )
    } else {
        Ok(ValueView::Integer(block_value(raw, 0) as u64))
    }
}

/// Names of the form `#<word>-cells`.
pub open spec fn is_cells_name(name: Seq<char>) -> bool {
    has_prefix(name, seq!['#']) && has_suffix(name, "-cells"@)
}

/// The value of a property named `name` with payload `raw`, in the context that the node
/// inherited and the one it owns.
#[verifier::opaque]
pub open spec fn value_of(
    raw: Seq<u8>,
    name: Seq<char>,
    inherited: Map<Seq<char>, u64>,
    owned: Map<Seq<char>, u64>,
) -> core::result::Result<ValueView, DeviceTreeError> {
    if raw.len() == 0 {
        Ok(ValueView::Empty)
    } else if name == "compatible"@ || name == "model"@ || name == "status"@ {
        text_value(raw)
    } else if name == "phandle"@ || name == "virtual-reg"@ {
        match first_word(raw) {
            Some(w) => Ok(ValueView::Integer(w as u64)),
            None => Err(DeviceTreeError::ParsingFailed),
        }
    } else if name == "reg"@ {
        if !inherited.contains_key(address_cells_name()) || !inherited.contains_key(
            size_cells_name(),
        ) {
            Err(DeviceTreeError::MissingCellParameter)
        } else {
            reg_value(raw, inherited[address_cells_name()], inherited[size_cells_name()])
        }
    } else if name == "ranges"@ || name == "dma-ranges"@ {
        if !owned.contains_key(address_cells_name()) || !inherited.contains_key(
            address_cells_name(),
        ) || !owned.contains_key(size_cells_name()) {
            Err(DeviceTreeError::MissingCellParameter)
        } else {
            ranges_value(
                raw,
                owned[address_cells_name()],
                inherited[address_cells_name()],
                owned[size_cells_name()],
            )
        }
    } else if has_suffix(name, "-parent"@) {
        match first_word(raw) {
            Some(w) => Ok(ValueView::PHandle(w)),
            None => Err(DeviceTreeError::ParsingFailed),
        }
    } else if is_cells_name(name) {
        match first_word(raw) {
            Some(w) => Ok(ValueView::Integer(w as u64)),
            None => Err(DeviceTreeError::ParsingFailed),
        }
    } else {
        guessed_value(raw)
    }
}

/// Decodes a text payload.
fn parse_text(raw: &[u8]) -> (r: Result<PropertyValue>)
    ensures
        value_result(r) == text_value(raw@),
{
    let strs = match read_aligned_sized_strings(raw, 0, raw.len()) {
        Some(v) => v,
        None => {
            assert(span(raw@, 0, raw@.len() as int) =~= raw@);
            return Err(DeviceTreeError::ParsingFailed);
        },
    };
    assert(span(raw@, 0, raw@.len() as int) =~= raw@);
    let ghost pieces = nul_pieces(raw@, 0);
    if strs.len() == 0 {
        Err(DeviceTreeError::ParsingFailed)
    } else if strs.len() == 1 {
        Ok(PropertyValue::String(strs[0].to_owned()))
    } else {
        let mut owned: Vec<String> = Vec::new();
        let mut i: usize = 0;
        while i < strs.len()
            invariant
                i <= strs@.len(),
                owned@.len() == i,
                forall|k: int| 0 <= k < i ==> (#[trigger] owned@[k])@ == strs@[k]@,
            decreases strs.len() - i,
        {
            owned.push(strs[i].to_owned());
            i = i + 1;
        }
        let r = PropertyValue::Strings(owned);
        assert(owned@.map_values(|s: String| s@) =~= pieces.map_values(
            |p: Seq<u8>| decode_utf8(p),
        ));
        Ok(r)
    }
}

/// Decodes a payload whose first block is the value.
fn parse_word(raw: &[u8]) -> (r: Option<u32>)
    ensures
        r == first_word(raw@),
{
    read_aligned_be_u32(raw, 0)
}

/// Decodes a `reg` payload.
fn parse_reg(raw: &[u8], address_cells: u64, size_cells: u64) -> (r: Result<PropertyValue>)
    ensures
        value_result(r) == reg_value(raw@, address_cells, size_cells),
{
    if address_cells > 2 || size_cells > 2 || address_cells + size_cells == 0 {
        return Err(DeviceTreeError::ParsingFailed);
    }
    let a = address_cells as usize;
    let s = size_cells as usize;
    let w = a + s;
    let blocks = align_size(raw.len());
    let count = blocks / w;
    assert(count * w <= blocks) by (nonlinear_arith)
        requires
            count == blocks / w,
            w > 0,
    ;
    if count > 1 {
        let mut regs: Vec<(u64, u64)> = Vec::new();
        let mut i: usize = 0;
        let mut base: usize = 0;
        while i < count
            invariant
                a == address_cells,
                s == size_cells,
                w == a + s,
                0 < w <= 4,
                a <= 2,
                s <= 2,
                count == blocks_for(raw@.len() as int) / (w as int),
                count * w <= blocks,
                blocks <= usize::MAX,
                i <= count,
                base == i * w,
                regs@.len() == i,
                forall|k: int| 0 <= k < i ==> #[trigger] reg_group_fits(raw@, k, a as nat, s as nat),
                forall|k: int|
                    0 <= k < i ==> #[trigger] regs@[k] == reg_group(raw@, k, a as nat, s as nat),
            decreases count - i,
        {
            assert(base + w <= count * w) by (nonlinear_arith)
                requires
                    base == i * w,
                    i < count,
            ;
            let address = match read_aligned_be_number(raw, base, a) {
                Some(v) => v,
                None => {
                    assert(!reg_group_fits(raw@, i as int, a as nat, s as nat));
                    return Err(DeviceTreeError::ParsingFailed);
                },
            };
            let size = match read_aligned_be_number(raw, base + a, s) {
                Some(v) => v,
                None => {
                    assert(!reg_group_fits(raw@, i as int, a as nat, s as nat));
                    return Err(DeviceTreeError::ParsingFailed);
                },
            };
            regs.push((address, size));
            assert((i + 1) * w == base + w) by (nonlinear_arith)
                requires
                    base == i * w,
            ;
            i = i + 1;
            base = base + w;
        }
        let r = PropertyValue::Addresses(regs);
        assert(regs@ =~= Seq::new(count as nat, |k: int| reg_group(raw@, k, a as nat, s as nat)));
        Ok(r)
    } else {
        assert(0 * w == 0);
        let address = match read_aligned_be_number(raw, 0, a) {
            Some(v) => v,
            None => {
                return Err(DeviceTreeError::ParsingFailed);
            },
        };
        let size = match read_aligned_be_number(raw, a, s) {
            Some(v) => v,
            None => {
                return Err(DeviceTreeError::ParsingFailed);
            },
        };
        Ok(PropertyValue::Address(address, size))
    }
}

/// Decodes a `ranges` payload.
fn parse_ranges(raw: &[u8], child_cells: u64, parent_cells: u64, size_cells: u64) -> (r: Result<
    PropertyValue,
>)
    ensures
        value_result(r) == ranges_value(raw@, child_cells, parent_cells, size_cells),
{
    if child_cells > 4 || parent_cells > 2 || size_cells > 2 || child_cells + parent_cells
        + size_cells == 0 {
        return Err(DeviceTreeError::ParsingFailed);
    }
    let c = child_cells as usize;
    let p = parent_cells as usize;
    let s = size_cells as usize;
    let w = c + p + s;
    let blocks = align_size(raw.len());
    let count = blocks / w;
    assert(count * w <= blocks) by (nonlinear_arith)
        requires
            count == blocks / w,
            w > 0,
    ;
    let mut rags: Vec<(u128, u64, u64)> = Vec::new();
    let mut i: usize = 0;
    let mut base: usize = 0;
    while i < count
        invariant
            c == child_cells,
            p == parent_cells,
            s == size_cells,
            w == c + p + s,
            0 < w <= 8,
            c <= 4,
            p <= 2,
            s <= 2,
            count == blocks_for(raw@.len() as int) / (w as int),
            count * w <= blocks,
            blocks <= usize::MAX,
            i <= count,
            base == i * w,
            rags@.len() == i,
            forall|k: int|
                0 <= k < i ==> #[trigger] range_group_fits(raw@, k, c as nat, p as nat, s as nat),
            forall|k: int|
                0 <= k < i ==> #[trigger] rags@[k] == range_group(
                    raw@,
                    k,
                    c as nat,
                    p as nat,
                    s as nat,
                ),
        decreases count - i,
    {
        assert(base + w <= count * w) by (nonlinear_arith)
            requires
                base == i * w,
                i < count,
        ;
        let child = match read_aligned_be_big_number(raw, base, c) {
            Some(v) => v,
            None => {
                assert(!range_group_fits(raw@, i as int, c as nat, p as nat, s as nat));
                return Err(DeviceTreeError::ParsingFailed);
            },
        };
        let parent = match read_aligned_be_number(raw, base + c, p) {
            Some(v) => v,
            None => {
                assert(!range_group_fits(raw@, i as int, c as nat, p as nat, s as nat));
                return Err(DeviceTreeError::ParsingFailed);
            },
        };
        let length = match read_aligned_be_number(raw, base + c + p, s) {
            Some(v) => v,
            None => {
                assert(!range_group_fits(raw@, i as int, c as nat, p as nat, s as nat));
                return Err(DeviceTreeError::ParsingFailed);
            },
        };
        rags.push((child, parent, length));
        assert((i + 1) * w == base + w) by (nonlinear_arith)
            requires
                base == i * w,
        ;
        i = i + 1;
        base = base + w;
    }
    let r = PropertyValue::Ranges(rags);
    assert(rags@ =~= Seq::new(
        count as nat,
        |k: int| range_group(raw@, k, c as nat, p as nat, s as nat),
    ));
    Ok(r)
}

/// Whether every byte is ASCII.
fn is_all_ascii(raw: &[u8]) -> (r: bool)
    ensures
        r == all_ascii(raw@),
{
    let mut i: usize = 0;
    while i < raw.len()
        invariant
            i <= raw@.len(),
            forall|k: int| 0 <= k < i ==> #[trigger] raw@[k] < 128,
        decreases raw.len() - i,
    {
        if raw[i] >= 128 {
            return false;
        }
        i = i + 1;
    }
    true
}

/// Decodes a payload whose name says nothing of its shape.
fn parse_guessed(raw: &[u8]) -> (r: Result<PropertyValue>)
    requires
        raw@.len() > 0,
    ensures
        value_result(r) == guessed_value(raw@),
{
    let aligned = raw.len() % BLOCK_SIZE == 0;
    let text = raw[0] != 0 && raw[raw.len() - 1] == 0 && is_all_ascii(raw);
    if !aligned || text {
        return parse_text(raw);
    }
    let size = raw.len() / BLOCK_SIZE;
    if size > 1 {
        let mut res: Vec<u64> = Vec::new();
        let mut i: usize = 0;
        while i < size
            invariant
                size == raw@.len() / 4,
                i <= size,
                res@.len() == i,
                forall|k: int| 0 <= k < i ==> #[trigger] res@[k] == block_value(raw@, k) as u64,
            decreases size - i,
        {
            match read_aligned_be_u32(raw, i) {
                Some(v) => res.push(v as u64),
                None => {
                    return Err(DeviceTreeError::ParsingFailed);
                },
            }
            i = i + 1;
        }
        let r = PropertyValue::Integers(res);
        assert(res@ =~= Seq::new(size as nat, |k: int| block_value(raw@, k) as u64));
        Ok(r)
    } else {
        match read_aligned_be_u32(raw, 0) {
            Some(v) => Ok(PropertyValue::Integer(v as u64)),
            None => Err(DeviceTreeError::ParsingFailed),
        }
    }
}

impl PropertyValue {
    /// Interprets the payload `raw` of a property named `name`: by the name first, then by the
    /// shape of the bytes. `reg` reads its cell widths from the inherited context; `ranges`
    /// reads the child address and size widths from the owned one and the parent address
    /// width from the inherited one. An empty payload is always `None`.
    pub fn parse_value(
        raw: &[u8],
        name: &str,
        inherited: &InheritedValues,
        owned: &InheritedValues,
    ) -> (r: Result<PropertyValue>)
        ensures
            value_result(r) == value_of(raw@, name@, inherited@, owned@),
    {
        proof {
            reveal(value_of);
        }
        if raw.len() == 0 {
            return Ok(PropertyValue::Empty);
        }
        if str_eq(name, "compatible") || str_eq(name, "model") || str_eq(name, "status") {
            parse_text(raw)
        } else if str_eq(name, "phandle") || str_eq(name, "virtual-reg") {
            match parse_word(raw) {
                Some(w) => Ok(PropertyValue::Integer(w as u64)),
                None => Err(DeviceTreeError::ParsingFailed),
            }
        } else if str_eq(name, "reg") {
            let address_cells = match inherited.find("#address-cells") {
                Some(v) => v,
                None => {
                    return Err(DeviceTreeError::MissingCellParameter);
                },
            };
            let size_cells = match inherited.find("#size-cells") {
                Some(v) => v,
                None => {
                    return Err(DeviceTreeError::MissingCellParameter);
                },
            };
            parse_reg(raw, address_cells, size_cells)
        } else if str_eq(name, "ranges") || str_eq(name, "dma-ranges") {
            let child_cells = match owned.find("#address-cells") {
                Some(v) => v,
                None => {
                    return Err(DeviceTreeError::MissingCellParameter);
                },
            };
            let parent_cells = match inherited.find("#address-cells") {
                Some(v) => v,
                None => {
                    return Err(DeviceTreeError::MissingCellParameter);
                },
            };
            let size_cells = match owned.find("#size-cells") {
                Some(v) => v,
                None => {
                    return Err(DeviceTreeError::MissingCellParameter);
                },
            };
            parse_ranges(raw, child_cells, parent_cells, size_cells)
        } else if ends_with(name, "-parent") {
            match parse_word(raw) {
                Some(w) => Ok(PropertyValue::PHandle(w)),
                None => Err(DeviceTreeError::ParsingFailed),
            }
        } else if starts_with_char(name, '#') && ends_with(name, "-cells") {
            match parse_word(raw) {
                Some(w) => Ok(PropertyValue::Integer(w as u64)),
                None => Err(DeviceTreeError::ParsingFailed),
            }
        } else {
            parse_guessed(raw)
        }
    }
}

/// A property as mathematical data.
pub struct PropertyModel {
    pub name: Seq<char>,
    pub value: ValueView,
}

/// A property of a node: its name and its interpreted value.
pub struct NodeProperty {
    /// Blocks that the property occupies in the structure block.
    pub(crate) block_count: usize,
    name: String,
    value: PropertyValue,
}

impl NodeProperty {
    /// Blocks that the property occupies in the structure block.
    pub closed spec fn blocks(&self) -> int {
        self.block_count as int
    }

    /// Blocks that the property occupies in the structure block.
    pub(crate) fn blocks_used(&self) -> (r: usize)
        ensures
            r == self.blocks(),
    {
        self.block_count
    }
}

impl View for NodeProperty {
    type V = PropertyModel;

    closed spec fn view(&self) -> PropertyModel {
        PropertyModel { name: self.name@, value: self.value@ }
    }
}

/// Name, payload length and block count of the property at block `block`, whose name lies
/// in the strings block at byte `strings`.
pub open spec fn meta_of(data: Seq<u8>, strings: int, block: int) -> Option<(Seq<char>, u32, int)> {
    if block_fits(data, block + 1) && block_fits(data, block + 2) {
        let size = block_value(data, block + 1);
        match text_at(data, strings + block_value(data, block + 2)) {
            Some(name) => Some((name, size as u32, 3 + blocks_for(size))),
            None => None,
        }
    } else {
        None
    }
}

/// The property at block `block` with the given metadata, and the blocks it occupies.
pub open spec fn property_from_meta(
    data: Seq<u8>,
    name: Seq<char>,
    size: u32,
    count: int,
    block: int,
    inherited: Map<Seq<char>, u64>,
    owned: Map<Seq<char>, u64>,
) -> core::result::Result<(PropertyModel, int), DeviceTreeError> {
    let first = 4 * (block + 3);
    if size == 0 {
        Ok((PropertyModel { name, value: ValueView::Empty }, 3))
    } else if first + size > data.len() {
        Err(DeviceTreeError::NotEnoughLength)
    } else {
        match value_of(data.subrange(first, first + size), name, inherited, owned) {
            Ok(value) => Ok((PropertyModel { name, value }, count)),
            Err(e) => Err(e),
        }
    }
}

/// The property at block `block`, and the blocks it occupies.
pub open spec fn property_at(
    data: Seq<u8>,
    strings: int,
    block: int,
    inherited: Map<Seq<char>, u64>,
    owned: Map<Seq<char>, u64>,
) -> core::result::Result<(PropertyModel, int), DeviceTreeError> {
    match meta_of(data, strings, block) {
        None => Err(DeviceTreeError::NotEnoughLength),
        Some(meta) => property_from_meta(data, meta.0, meta.1, meta.2, block, inherited, owned),
    }
}

/// A decoded property with the blocks it occupies, or the error met on the way.
pub open spec fn property_result(r: Result<NodeProperty>) -> core::result::Result<
    (PropertyModel, int),
    DeviceTreeError,
> {
    match r {
        Ok(p) => Ok((p@, p.blocks())),
        Err(e) => Err(e),
    }
}

impl NodeProperty {
    /// Reads the name, payload length and block count of the property at block
    /// `block_start`.
    pub(crate) fn read_meta(data: &[u8], header: &DeviceTreeHeader, block_start: usize) -> (r:
        Option<(String, u32, usize)>)
        ensures
            r matches Some(m) ==> meta_of(data@, header.off_dt_strings as int, block_start as int)
                == Some((m.0@, m.1, m.2 as int)),
            r is None ==> meta_of(data@, header.off_dt_strings as int, block_start as int) is None,
    {
        if block_start >= data.len() / BLOCK_SIZE {
            return None;
        }
        let size = match read_aligned_be_u32(data, block_start + 1) {
            Some(v) => v,
            None => {
                return None;
            },
        };
        let name_offset = match read_aligned_be_u32(data, block_start + 2) {
            Some(v) => v,
            None => {
                return None;
            },
        };
        let at = match (header.off_dt_strings as usize).checked_add(name_offset as usize) {
            Some(v) => v,
            None => {
                return None;
            },
        };
        match read_name(data, at) {
            Some(name) => Some((name.to_owned(), size, 3 + align_size(size as usize))),
            None => None,
        }
    }

    /// Builds the property at block `block_start` from its metadata.
    pub(crate) fn from_meta(
        data: &[u8],
        meta: (String, u32, usize),
        block_start: usize,
        inherited: &InheritedValues,
        owned: &InheritedValues,
    ) -> (r: Result<NodeProperty>)
        ensures
            property_result(r) == property_from_meta(
                data@,
                meta.0@,
                meta.1,
                meta.2 as int,
                block_start as int,
                inherited@,
                owned@,
            ),
    {
        let (name, size, count) = meta;
        if size == 0 {
            return Ok(NodeProperty { block_count: 3, name, value: PropertyValue::Empty });
        }
        if block_start >= data.len() / BLOCK_SIZE {
            return Err(DeviceTreeError::NotEnoughLength);
        }
        let value_index = block_start + 3;
        if value_index > data.len() / BLOCK_SIZE {
            return Err(DeviceTreeError::NotEnoughLength);
        }
        let first = locate_block(value_index);
        if size as usize > data.len() - first {
            return Err(DeviceTreeError::NotEnoughLength);
        }
        let raw = &data[first..first + size as usize];
        match PropertyValue::parse_value(raw, name.as_str(), inherited, owned) {
            Ok(value) => Ok(NodeProperty { block_count: count, name, value }),
            Err(e) => Err(e),
        }
    }

    /// Decodes the property that starts at byte `start` (rounded down to its block).
    pub(crate) fn from_bytes(
        data: &[u8],
        header: &DeviceTreeHeader,
        start: usize,
        inherited: &InheritedValues,
        owned: &InheritedValues,
    ) -> (r: Result<NodeProperty>)
        ensures
            property_result(r) == property_at(
                data@,
                header.off_dt_strings as int,
                start as int / 4,
                inherited@,
                owned@,
            ),
    {
        let block_start = align_block(start);
        match NodeProperty::read_meta(data, header, block_start) {
            Some(meta) => NodeProperty::from_meta(data, meta, block_start, inherited, owned),
            None => Err(DeviceTreeError::NotEnoughLength),
        }
    }

    /// The property's name.
    pub fn name(&self) -> (r: &str)
        ensures
            r@ == self@.name,
    {
        self.name.as_str()
    }

    /// The property's value.
    pub fn value(&self) -> (r: &PropertyValue)
        ensures
            r@ == self@.value,
    {
        &self.value
    }
}

/// `reg` is none of the names that the interpreter tests before it.
proof fn lemma_reg_is_no_other_name()
    ensures
        "reg"@ != "compatible"@,
        "reg"@ != "model"@,
        "reg"@ != "status"@,
        "reg"@ != "phandle"@,
        "reg"@ != "virtual-reg"@,
{
    reveal_strlit("reg");
    reveal_strlit("compatible");
    reveal_strlit("model");
    reveal_strlit("status");
    reveal_strlit("phandle");
    reveal_strlit("virtual-reg");
    assert("reg"@.len() != "compatible"@.len());
    assert("reg"@.len() != "model"@.len());
    assert("reg"@.len() != "status"@.len());
    assert("reg"@.len() != "phandle"@.len());
    assert("reg"@.len() != "virtual-reg"@.len());
}

/// A `reg` value of several address and size pairs has exactly
/// floor(payload blocks / (address cells + size cells)) of them, more than one, and each is
/// what reading its own cells on their own gives.
pub proof fn lemma_reg_groups(
    raw: Seq<u8>,
    inherited: Map<Seq<char>, u64>,
    owned: Map<Seq<char>, u64>,
    pairs: Seq<(u64, u64)>,
)
    requires
        value_of(raw, "reg"@, inherited, owned) == Ok::<ValueView, DeviceTreeError>(
            ValueView::Addresses(pairs),
        ),
    ensures
        inherited.contains_key(address_cells_name()),
        inherited.contains_key(size_cells_name()),
        ({
            let a = inherited[address_cells_name()] as int;
            let s = inherited[size_cells_name()] as int;
            &&& a + s > 0
            &&& pairs.len() == blocks_for(raw.len() as int) / (a + s)
            &&& pairs.len() > 1
            &&& forall|i: int|
                0 <= i < pairs.len() ==> {
                    let base = i * (a + s);
                    &&& read_number(raw.subrange(4 * base, 4 * (base + a)), 0, a as nat) == Some(
                        (#[trigger] pairs[i]).0,
                    )
                    &&& read_number(
                        raw.subrange(4 * (base + a), 4 * (base + a + s)),
                        0,
                        s as nat,
                    ) == Some(pairs[i].1)
                }
        }),
{
    reveal(value_of);
    lemma_reg_is_no_other_name();
    let a = inherited[address_cells_name()] as nat;
    let s = inherited[size_cells_name()] as nat;
    assert forall|i: int| 0 <= i < pairs.len() implies {
        let base = i * (a + s);
        &&& read_number(raw.subrange(4 * base, 4 * (base + a)), 0, a) == Some(
            (#[trigger] pairs[i]).0,
        )
        &&& read_number(raw.subrange(4 * (base + a), 4 * (base + a + s)), 0, s) == Some(
            pairs[i].1,
        )
    } by {
        let base = i * (a + s);
        assert(reg_group_fits(raw, i, a, s));
        assert(pairs[i] == reg_group(raw, i, a, s));
        assert(0 <= i * (a + s)) by (nonlinear_arith)
            requires
                0 <= i,
                0 <= a + s,
        ;
        if a > 0 {
            lemma_cells_of_slice(raw, base, a);
        }
        if s > 0 {
            lemma_cells_of_slice(raw, base + a, s);
        }
    }
}

/// Without `#address-cells` or `#size-cells` in the inherited context, a non-empty `reg`
/// payload is refused with `MissingCellParameter` rather than read with made-up widths.
pub proof fn lemma_reg_needs_cells(
    raw: Seq<u8>,
    inherited: Map<Seq<char>, u64>,
    owned: Map<Seq<char>, u64>,
)
    requires
        raw.len() > 0,
        !inherited.contains_key(address_cells_name()) || !inherited.contains_key(
            size_cells_name(),
        ),
    ensures
        value_of(raw, "reg"@, inherited, owned) == Err::<ValueView, DeviceTreeError>(
            DeviceTreeError::MissingCellParameter,
        ),
{
    reveal(value_of);
    lemma_reg_is_no_other_name();
}

/// A non-empty `reg` payload is read with the `#address-cells` and `#size-cells` of the
/// inherited context, that is, the widths that the parent node had in force.
pub proof fn lemma_reg_reads_inherited_cells(
    raw: Seq<u8>,
    inherited: Map<Seq<char>, u64>,
    owned: Map<Seq<char>, u64>,
)
    requires
        raw.len() > 0,
        inherited.contains_key(address_cells_name()),
        inherited.contains_key(size_cells_name()),
    ensures
        value_of(raw, "reg"@, inherited, owned) == reg_value(
            raw,
            inherited[address_cells_name()],
            inherited[size_cells_name()],
        ),
{
    reveal(value_of);
    lemma_reg_is_no_other_name();
}

} // verus!