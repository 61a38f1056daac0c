//! Nodes, and the recursive walk over the structure block that builds them.

use vstd::prelude::*;
use vstd::string::*;
use vstd::utf8::*;
use crate::byte_utils::{
    lemma_nul_index_bounds,
    align_size, block_fits, BLOCK_SIZE, block_value, blocks_for, locate_block, nul_index,
    read_aligned_be_u32, read_aligned_name,
};
use crate::device_tree::{InheritedValues, address_cells_name, size_cells_name};
use crate::error::{DeviceTreeError, Result};
use crate::header::DeviceTreeHeader;
use crate::prop::{NodeProperty, PropertyModel, PropertyValue, ValueView, property_at};
use crate::structure::{StructureToken, token_of, TOKEN_BEGIN_NODE};
use crate::traits::{HasNamedChildNode, HasNamedProperty, child_index, prop_index};
use crate::text::{char_index, find_char, lemma_char_index_bounds, str_eq};

verus! {

/// A node as mathematical data.
pub struct NodeModel {
    pub name: Seq<char>,
    pub props: Seq<PropertyModel>,
    pub nodes: Seq<NodeModel>,
}

/// A node of the tree: its name, its properties and its children, in the order of the blob.
pub struct DeviceTreeNode {
    /// Blocks that the node occupies in the structure block.
    pub(crate) block_count: usize,
    name: String,
    props: Vec<NodeProperty>,
    nodes: Vec<DeviceTreeNode>,
}

impl View for DeviceTreeNode {
    type V = NodeModel;

    closed spec fn view(&self) -> NodeModel
        decreases self,
    {
        NodeModel {
            name: self.name@,
            props: self.props@.map_values(|p: NodeProperty| p@),
            nodes: Seq::new(
                self.nodes@.len(),
                |i: int|
                    if 0 <= i < self.nodes@.len() {
                        self.nodes@[i].view()
                    } else {
                        NodeModel { name: seq![], props: seq![], nodes: seq![] }
                    },
            ),
        }
    }
}

/// The context a node owns once it has read property `p`: `#address-cells` and
/// `#size-cells` with an integer value replace what was in force.
pub open spec fn owned_after(owned: Map<Seq<char>, u64>, p: PropertyModel) -> Map<Seq<char>, u64> {
    if (p.name == address_cells_name() || p.name == size_cells_name()) && p.value is Integer {
        owned.insert(p.name, p.value->Integer_0)
    } else {
        owned
    }
}

/// The node that begins at block `block`, and the blocks it occupies. Its owned context
/// starts as a copy of the inherited one.
pub open spec fn node_at(
    data: Seq<u8>,
    strings: int,
    block: int,
    inherited: Map<Seq<char>, u64>,
) -> core::result::Result<(NodeModel, int), DeviceTreeError>
    decreases data.len() + 4 - 4 * block, 0int,
{
    if !block_fits(data, block) {
        Err(DeviceTreeError::ParsingFailed)
    } else if block_value(data, block) != TOKEN_BEGIN_NODE {
        Err(DeviceTreeError::InvalidToken)
    } else {
        let off = 4 * (block + 1);
        let end = nul_index(data, off);
        proof {
            lemma_nul_index_bounds(data, off);
        }
        if end >= data.len() || !valid_utf8(data.subrange(off, end)) {
            Err(DeviceTreeError::ParsingFailed)
        } else {
            let first = block + 1 + blocks_for(end - off + 1);
            match body_at(data, strings, first, inherited, inherited, seq![], seq![]) {
                Ok(body) => Ok(
                    (
                        NodeModel {
                            name: decode_utf8(data.subrange(off, end)),
                            props: body.0,
                            nodes: body.1,
                        },
                        body.2 - block,
                    ),
                ),
                Err(e) => Err(e),
            }
        }
    }
}

/// The rest of a node's walk from block `cur`, with the properties and children read so
/// far: its properties, its children, and the block after its end.
pub open spec fn body_at(
    data: Seq<u8>,
    strings: int,
    cur: int,
    inherited: Map<Seq<char>, u64>,
    owned: Map<Seq<char>, u64>,
    props: Seq<PropertyModel>,
    nodes: Seq<NodeModel>,
) -> core::result::Result<(Seq<PropertyModel>, Seq<NodeModel>, int), DeviceTreeError>
    decreases data.len() + 4 - 4 * cur, 1int,
{
    if !block_fits(data, cur) {
        Err(DeviceTreeError::ParsingFailed)
    } else {
        match token_of(block_value(data, cur) as u32) {
            None => Err(DeviceTreeError::InvalidToken),
            Some(StructureToken::Property) => match property_at(
                data,
                strings,
                cur,
                inherited,
                owned,
            ) {
                Ok(p) => body_at(
                    data,
                    strings,
                    cur + p.1,
                    inherited,
                    owned_after(owned, p.0),
                    props.push(p.0),
                    nodes,
                ),
                Err(e) => Err(e),
            },
            Some(StructureToken::BeginNode) => match node_at(data, strings, cur, owned) {
                Ok(child) => {
                    // every decoded child ends after its start and inside the data; the
                    // test makes that visible to the termination check
                    if 0 < child.1 && 4 * (cur + child.1) <= data.len() {
                        body_at(
                            data,
                            strings,
                            cur + child.1,
                            inherited,
                            owned,
                            props,
                            nodes.push(child.0),
                        )
                    } else {
                        Err(DeviceTreeError::ParsingFailed)
                    }
                },
                Err(e) => Err(e),
            },
            Some(StructureToken::Nop) => body_at(
                data,
                strings,
                cur + 1,
                inherited,
                owned,
                props,
                nodes,
            ),
            Some(_) => Ok((props, nodes, cur + 1)),
        }
    }
}

/// A decoded node with the blocks it occupies, or the error met on the way.
pub open spec fn node_result(r: Result<DeviceTreeNode>) -> core::result::Result<
    (NodeModel, int),
    DeviceTreeError,
> {
    match r {
        Ok(n) => Ok((n@, n.blocks())),
        Err(e) => Err(e),
    }
}

/// Views of a sequence of properties.
pub open spec fn prop_views(props: Seq<NodeProperty>) -> Seq<PropertyModel> {
    props.map_values(|p: NodeProperty| p@)
}

/// Views of a sequence of nodes.
pub open spec fn node_views(nodes: Seq<DeviceTreeNode>) -> Seq<NodeModel> {
    nodes.map_values(|n: DeviceTreeNode| n@)
}

/// Takes property `prop` into the context that its node owns.
fn update_owned(owned: &mut InheritedValues, prop: &NodeProperty)
    ensures
        final(owned)@ == owned_after(old(owned)@, prop@),
{
    if str_eq(prop.name(), "#address-cells") || str_eq(prop.name(), "#size-cells") {
        if let PropertyValue::Integer(v) = prop.value() {
            owned.insert(prop.name().to_owned(), *v);
        }
    }
}

/// A walked body as mathematical data, or the error met on the way.
pub open spec fn body_result(r: Result<(Vec<NodeProperty>, Vec<DeviceTreeNode>, usize)>) -> core::result::Result<
    (Seq<PropertyModel>, Seq<NodeModel>, int),
    DeviceTreeError,
> {
    match r {
        Ok(b) => Ok((prop_views(b.0@), node_views(b.1@), b.2 as int)),
        Err(e) => Err(e),
    }
}

/// The node with name `name` at block `block`, from the result of its body's walk.
pub open spec fn node_from_body(
    name: Seq<char>,
    block: int,
    body: core::result::Result<(Seq<PropertyModel>, Seq<NodeModel>, int), DeviceTreeError>,
) -> core::result::Result<(NodeModel, int), DeviceTreeError> {
    match body {
        Ok(b) => Ok((NodeModel { name, props: b.0, nodes: b.1 }, b.2 - block)),
        Err(e) => Err(e),
    }
}

impl DeviceTreeNode {
    /// Blocks that the node occupies in the structure block.
    pub closed spec fn blocks(&self) -> int {
        self.block_count as int
    }

    /// Decodes the node that begins at byte `start` (rounded up to its block), with the
    /// context that its parent hands down. The node's own context starts as a copy of it
    /// and takes each `#address-cells` or `#size-cells` property as it comes, so that it
    /// applies to the properties after it and to every child.
    pub fn from_bytes(
        data: &[u8],
        header: &DeviceTreeHeader,
        start: usize,
        inherited: InheritedValues,
    ) -> (r: Result<Self>)
        ensures
            node_result(r) == node_at(
                data@,
                header.off_dt_strings as int,
                blocks_for(start as int),
                inherited@,
            ),
            r matches Ok(n) ==> 0 < n.blocks() && 4 * (blocks_for(start as int) + n.blocks())
                <= data@.len(),
        decreases data@.len() + 4 - 4 * blocks_for(start as int), 0int,
    {
        let block_start = align_size(start);
        if block_start >= data.len() / BLOCK_SIZE {
            return Err(DeviceTreeError::ParsingFailed);
        }
        let token = match read_aligned_be_u32(data, block_start) {
            Some(v) => v,
            None => {
                return Err(DeviceTreeError::ParsingFailed);
            },
        };
        if token != TOKEN_BEGIN_NODE {
            return Err(DeviceTreeError::InvalidToken);
        }
        let name = match read_aligned_name(data, block_start + 1) {
            Some(v) => v,
            None => {
                return Err(DeviceTreeError::ParsingFailed);
            },
        };
        proof {
            lemma_nul_index_bounds(data@, 4 * (block_start + 1));
        }
        assert(name.spec_bytes().len() < data@.len());
        let first = block_start + 1 + align_size(name.len() + 1);
        let owned = inherited.duplicate();
        let ghost body = body_at(
            data@,
            header.off_dt_strings as int,
            first as int,
            inherited@,
            inherited@,
            seq![],
            seq![],
        );
        assert(node_at(data@, header.off_dt_strings as int, block_start as int, inherited@)
            == node_from_body(name@, block_start as int, body));
        match DeviceTreeNode::walk_body(data, header, first, &inherited, owned) {
            Ok((props, nodes, end)) => {
                let node = DeviceTreeNode {
                    block_count: end - block_start,
                    name: name.to_owned(),
                    props,
                    nodes,
                };
                proof {
                    assert(node@.nodes =~= node_views(nodes@));
                }
                Ok(node)
            },
            Err(e) => Err(e),
        }
    }

    /// Walks a node's body from block `first` up to and past its end token, and gives its
    /// properties, its children and the block after the end.
    fn walk_body(
        data: &[u8],
        header: &DeviceTreeHeader,
        first: usize,
        inherited: &InheritedValues,
        owned: InheritedValues,
    ) -> (r: Result<(Vec<NodeProperty>, Vec<DeviceTreeNode>, usize)>)
        requires
            4 * first <= data@.len() + 4,
        ensures
            body_result(r) == body_at(
                data@,
                header.off_dt_strings as int,
                first as int,
                inherited@,
                owned@,
                seq![],
                seq![],
            ),
            r matches Ok(b) ==> first < b.2 && 4 * b.2 <= data@.len(),
        decreases data@.len() + 4 - 4 * first, 1int,
    {
        let len = data.len();
        let ghost strings = header.off_dt_strings as int;
        let ghost goal = body_at(data@, strings, first as int, inherited@, owned@, seq![], seq![]);
        let mut ctx = owned;
        let mut props: Vec<NodeProperty> = Vec::new();
        let mut nodes: Vec<DeviceTreeNode> = Vec::new();
        let mut cur = first;
        assert(prop_views(props@) =~= Seq::<PropertyModel>::empty());
        assert(node_views(nodes@) =~= Seq::<NodeModel>::empty());
        loop
            invariant
                strings == header.off_dt_strings as int,
                data@.len() == len,
                first <= cur,
                4 * cur <= data@.len() + 4,
                goal == body_at(data@, strings, first as int, inherited@, owned@, seq![], seq![]),
                goal == body_at(
                    data@,
                    strings,
                    cur as int,
                    inherited@,
                    ctx@,
                    prop_views(props@),
                    node_views(nodes@),
                ),
            decreases data@.len() + 4 - 4 * cur,
        {
            let word = match read_aligned_be_u32(data, cur) {
                Some(v) => v,
                None => {
                    return Err(DeviceTreeError::ParsingFailed);
                },
            };
            match StructureToken::from_u32(word) {
                None => {
                    return Err(DeviceTreeError::InvalidToken);
                },
                Some(StructureToken::Property) => {
                    let prop = match NodeProperty::from_bytes(
                        data,
                        header,
                        locate_block(cur),
                        inherited,
                        &ctx,
                    ) {
                        Ok(p) => p,
                        Err(e) => {
                            return Err(e);
                        },
                    };
                    update_owned(&mut ctx, &prop);
                    cur = cur + prop.blocks_used();
                    let ghost before = props@;
                    props.push(prop);
                    assert(prop_views(props@) =~= prop_views(before).push(prop@));
                },
                Some(StructureToken::BeginNode) => {
                    let child = match DeviceTreeNode::from_bytes(
                        data,
                        header,
                        locate_block(cur),
                        ctx.duplicate(),
                    ) {
                        Ok(n) => n,
                        Err(e) => {
                            return Err(e);
                        },
                    };
                    cur = cur + child.block_count;
                    let ghost before = nodes@;
                    nodes.push(child);
                    assert(node_views(nodes@) =~= node_views(before).push(child@));
                },
                Some(StructureToken::Nop) => {
                    cur = cur + 1;
                },
                Some(_) => {
                    return Ok((props, nodes, cur + 1));
                },
            }
        }
    }
}

/// The part of a name before its first `@`, or the whole name.
pub open spec fn type_part(name: Seq<char>) -> Seq<char> {
    let at = char_index(name, '@', 0);
    if at < name.len() {
        name.subrange(0, at)
    } else {
        name
    }
}

/// The part of a name after its first `@` (the unit address), or the whole name.
pub open spec fn index_part(name: Seq<char>) -> Seq<char> {
    let at = char_index(name, '@', 0);
    if at < name.len() {
        name.subrange(at + 1, name.len() as int)
    } else {
        name
    }
}

impl DeviceTreeNode {
    /// The view of a node is made of the views of its fields.
    proof fn lemma_view_parts(&self)
        ensures
            self@.name == self.name@,
            self@.props == prop_views(self.props@),
            self@.nodes == node_views(self.nodes@),
    {
        assert(self@.nodes =~= node_views(self.nodes@));
    }

    /// The node's name.
    pub fn name(&self) -> (r: &str)
        ensures
            r@ == self@.name,
    {
        proof {
            self.lemma_view_parts();
        }
        self.name.as_str()
    }

    /// The part of the name before the first `@`; the whole name when it has none.
    pub fn node_type(&self) -> (r: &str)
        ensures
            r@ == type_part(self@.name),
    {
        let name = self.name.as_str();
        proof {
            self.lemma_view_parts();
            lemma_char_index_bounds(name@, '@', 0);
        }
        match find_char(name, '@') {
            Some(index) => name.substring_char(0, index),
            None => name,
        }
    }

    /// The part of the name after the first `@`; the whole name when it has none.
    pub fn index_name(&self) -> (r: &str)
        ensures
            r@ == index_part(self@.name),
    {
        let name = self.name.as_str();
        proof {
            self.lemma_view_parts();
            lemma_char_index_bounds(name@, '@', 0);
        }
        let n = name.unicode_len();
        match find_char(name, '@') {
            Some(index) => name.substring_char(index + 1, n),
            None => name,
        }
    }

    /// The node's properties, in the order of the blob.
    pub fn props(&self) -> (r: &[NodeProperty])
        ensures
            prop_views(r@) == self@.props,
    {
        proof {
            self.lemma_view_parts();
        }
        self.props.as_slice()
    }

    /// The node's children, in the order of the blob.
    pub fn nodes(&self) -> (r: &[DeviceTreeNode])
        ensures
            node_views(r@) == self@.nodes,
    {
        proof {
            self.lemma_view_parts();
        }
        self.nodes.as_slice()
    }
}

impl HasNamedChildNode for DeviceTreeNode {
    open spec fn named_children(&self) -> Seq<NodeModel> {
        self@.nodes
    }

    fn has_children(&self) -> (r: bool) {
        self.nodes().len() != 0
    }

    fn find_child(&self, name: &str) -> (r: Option<&DeviceTreeNode>) {
        let nodes = self.nodes();
        let ghost views = node_views(nodes@);
        let mut i: usize = 0;
        while i < nodes.len()
            invariant
                views == node_views(nodes@),
                views == self@.nodes,
                i <= nodes@.len(),
                child_index(views, name@, 0) == child_index(views, name@, i as int),
            decreases nodes.len() - i,
        {
            if str_eq(nodes[i].name(), name) {
                return Some(&nodes[i]);
            }
            i = i + 1;
        }
        None
    }
}

impl HasNamedProperty for DeviceTreeNode {
    open spec fn named_props(&self) -> Seq<PropertyModel> {
        self@.props
    }

    fn has_props(&self) -> (r: bool) {
        self.props().len() != 0
    }

    fn find_prop(&self, name: &str) -> (r: Option<&NodeProperty>) {
        let props = self.props();
        let ghost views = prop_views(props@);
        let mut i: usize = 0;
        while i < props.len()
            invariant
                views == prop_views(props@),
                views == self@.props,
                i <= props@.len(),
                prop_index(views, name@, 0) == prop_index(views, name@, i as int),
            decreases props.len() - i,
        {
            if str_eq(props[i].name(), name) {
                return Some(&props[i]);
            }
            i = i + 1;
        }
        None
    }

    fn of_value(&self, name: &str) -> (r: Option<&PropertyValue>) {
        match self.find_prop(name) {
            Some(p) => Some(p.value()),
            None => None,
        }
    }
}

/// Splitting a name at its first `@` loses nothing: when the name has an `@`, its type part,
/// an `@` and its unit address give the name back; when it has none, both parts are the
/// whole name.
pub proof fn lemma_name_parts(name: Seq<char>)
    ensures
        name.contains('@') ==> type_part(name) + seq!['@'] + index_part(name) == name,
        !name.contains('@') ==> type_part(name) == name && index_part(name) == name,
{
    lemma_char_index_bounds(name, '@', 0);
    let at = char_index(name, '@', 0);
    if at < name.len() {
        assert(type_part(name) + seq!['@'] + index_part(name) =~= name);
    } else {
        assert(!name.contains('@'));
    }
}

/// A structure word that is no token stops the walk of the node it stands in with
/// `InvalidToken`.
pub proof fn lemma_unknown_token(
    data: Seq<u8>,
    strings: int,
    cur: int,
    inherited: Map<Seq<char>, u64>,
    owned: Map<Seq<char>, u64>,
    props: Seq<PropertyModel>,
    nodes: Seq<NodeModel>,
)
    requires
        block_fits(data, cur),
        token_of(block_value(data, cur) as u32) is None,
    ensures
        body_at(data, strings, cur, inherited, owned, props, nodes) == Err::<
            (Seq<PropertyModel>, Seq<NodeModel>, int),
            DeviceTreeError,
        >(DeviceTreeError::InvalidToken),
{
}

/// A child node is decoded with the context that its parent owns at that point (the parent's
/// inherited one, updated by the `#address-cells` and `#size-cells` properties read so far),
/// and the parent's walk resumes after it.
pub proof fn lemma_child_gets_owned_context(
    data: Seq<u8>,
    strings: int,
    cur: int,
    inherited: Map<Seq<char>, u64>,
    owned: Map<Seq<char>, u64>,
    props: Seq<PropertyModel>,
    nodes: Seq<NodeModel>,
    child: NodeModel,
    count: int,
)
    requires
        block_fits(data, cur),
        block_value(data, cur) == TOKEN_BEGIN_NODE,
        node_at(data, strings, cur, owned) == Ok::<(NodeModel, int), DeviceTreeError>(
            (child, count),
        ),
        0 < count,
        4 * (cur + count) <= data.len(),
    ensures
        body_at(data, strings, cur, inherited, owned, props, nodes) == body_at(
            data,
            strings,
            cur + count,
            inherited,
            owned,
            props,
            nodes.push(child),
        ),
{
}

/// Reading `#address-cells` or `#size-cells` with an integer value sets that width in the
/// context the node owns, for the properties after it and for every child.
pub proof fn lemma_declared_cells(owned: Map<Seq<char>, u64>, p: PropertyModel, v: u64)
    requires
        p.name == address_cells_name() || p.name == size_cells_name(),
        p.value == ValueView::Integer(v),
    ensures
        owned_after(owned, p) == owned.insert(p.name, v),
        owned_after(owned, p)[p.name] == v,
{
}

} // verus!