//! The tree handle, and the cell-width context that the decoder threads down the tree.

use vstd::prelude::*;
use vstd::string::*;
use std::collections::VecDeque;
use crate::byte_utils::{block_value, blocks_for};
use crate::error::{DeviceTreeError, Result};
use crate::header::{DeviceTreeHeader, HEADER_SIZE, header_of};
use crate::node::{DeviceTreeNode, NodeModel, node_at, node_views};
use crate::text::{char_index, lemma_char_index_bounds, str_eq};
use crate::traits::{HasNamedChildNode, named_child};

verus! {

/// Name of the property that gives the cells of an address.
pub open spec fn address_cells_name() -> Seq<char> {
    "#address-cells"@
}

/// Name of the property that gives the cells of a size.
pub open spec fn size_cells_name() -> Seq<char> {
    "#size-cells"@
}

/// The context in force at the root: two cells for addresses and two for sizes.
pub open spec fn default_cells() -> Map<Seq<char>, u64> {
    map![address_cells_name() => 2u64, size_cells_name() => 2u64]
}

/// Value of the first entry named `key`.
pub open spec fn lookup(entries: Seq<(Seq<char>, u64)>, key: Seq<char>) -> Option<u64>
    decreases entries.len(),
{
    if entries.len() == 0 {
        None
    } else if entries[0].0 == key {
        Some(entries[0].1)
    } else {
        lookup(entries.drop_first(), key)
    }
}

/// Overwriting the first entry named `key` changes the lookup of `key` alone.
proof fn lemma_lookup_update(s: Seq<(Seq<char>, u64)>, j: int, key: Seq<char>, v: u64)
    requires
        0 <= j < s.len(),
        s[j].0 == key,
        forall|i: int| 0 <= i < j ==> s[i].0 != key,
    ensures
        forall|k: Seq<char>|
            #[trigger] lookup(s.update(j, (key, v)), k) == if k == key {
                Some(v)
            } else {
                lookup(s, k)
            },
    decreases j,
{
    let t = s.update(j, (key, v));
    if j > 0 {
        lemma_lookup_update(s.drop_first(), j - 1, key, v);
        assert(t.drop_first() =~= s.drop_first().update(j - 1, (key, v)));
        assert(t[0] == s[0]);
    } else {
        assert(t.drop_first() =~= s.drop_first());
    }
    assert forall|k: Seq<char>|
        #[trigger] lookup(t, k) == if k == key {
            Some(v)
        } else {
            lookup(s, k)
        } by {
        assert(t.len() == s.len() && s.len() > 0);
        assert(lookup(s, k) == if s[0].0 == k {
            Some(s[0].1)
        } else {
            lookup(s.drop_first(), k)
        });
        assert(lookup(t, k) == if t[0].0 == k {
            Some(t[0].1)
        } else {
            lookup(t.drop_first(), k)
        });
        if j == 0 {
            assert(t[0] == (key, v));
        } else {
            assert(t[0] == s[0]);
            assert(lookup(t.drop_first(), k) == lookup(s.drop_first().update(j - 1, (key, v)), k));
        }
    }
}

/// Appending an entry for a `key` not yet present changes the lookup of `key` alone.
proof fn lemma_lookup_push(s: Seq<(Seq<char>, u64)>, key: Seq<char>, v: u64)
    requires
        forall|i: int| 0 <= i < s.len() ==> s[i].0 != key,
    ensures
        forall|k: Seq<char>|
            #[trigger] lookup(s.push((key, v)), k) == if k == key {
                Some(v)
            } else {
                lookup(s, k)
            },
    decreases s.len(),
{
    let t = s.push((key, v));
    if s.len() > 0 {
        lemma_lookup_push(s.drop_first(), key, v);
        assert(t.drop_first() =~= s.drop_first().push((key, v)));
        assert(t[0] == s[0]);
        assert(s[0].0 != key);
    } else {
        assert(t.drop_first() =~= Seq::<(Seq<char>, u64)>::empty());
        assert(t[0] == (key, v));
    }
    assert forall|k: Seq<char>|
        #[trigger] lookup(t, k) == if k == key {
            Some(v)
        } else {
            lookup(s, k)
        } by {
        assert(lookup(t, k) == if t[0].0 == k {
            Some(t[0].1)
        } else {
            lookup(t.drop_first(), k)
        });
        if s.len() > 0 {
            assert(t[0] == s[0]);
            assert(lookup(s, k) == if s[0].0 == k {
                Some(s[0].1)
            } else {
                lookup(s.drop_first(), k)
            });
            assert(lookup(t.drop_first(), k) == lookup(s.drop_first().push((key, v)), k));
        } else {
            assert(t[0] == (key, v));
            assert(lookup(s, k) == None::<u64>);
        }
    }
}

/// Named numeric values (`#address-cells`, `#size-cells`) in scope at a node.
pub struct InheritedValues(Vec<(String, u64)>);

impl InheritedValues {
    /// The entries with their names as characters.
    pub closed spec fn entries(&self) -> Seq<(Seq<char>, u64)> {
        self.0@.map_values(|e: (String, u64)| (e.0@, e.1))
    }
}

impl View for InheritedValues {
    type V = Map<Seq<char>, u64>;

    closed spec fn view(&self) -> Map<Seq<char>, u64> {
        Map::new(
            |k: Seq<char>| lookup(self.entries(), k) is Some,
            |k: Seq<char>| lookup(self.entries(), k)->0,
        )
    }
}

impl InheritedValues {
    /// An empty context.
    pub fn new() -> (r: Self)
        ensures
            r@ == Map::<Seq<char>, u64>::empty(),
    {
        let r = InheritedValues(Vec::new());
        assert(r@ =~= Map::<Seq<char>, u64>::empty());
        r
    }

    /// The context at the root of a tree: two address cells and two size cells.
    pub fn with_defaults() -> (r: Self)
        ensures
            r@ == default_cells(),
    {
        let mut r = InheritedValues::new();
        r.insert("#address-cells".to_owned(), 2);
        r.insert("#size-cells".to_owned(), 2);
        r
    }

    /// The value named `name`, if it is in scope.
    pub fn find(&self, name: &str) -> (r: Option<u64>)
        ensures
            r == (if self@.contains_key(name@) {
                Some(self@[name@])
            } else {
                None::<u64>
            }),
    {
        let ghost entries = self.entries();
        assert(entries.skip(0) =~= entries);
        let mut i: usize = 0;
        while i < self.0.len()
            invariant
                entries == self.entries(),
                i <= entries.len(),
                lookup(entries, name@) == lookup(entries.skip(i as int), name@),
            decreases self.0.len() - i,
        {
            assert(entries.skip(i as int)[0] == entries[i as int]);
            assert(entries[i as int] == (self.0@[i as int].0@, self.0@[i as int].1));
            if str_eq(self.0[i].0.as_str(), name) {
                return Some(self.0[i].1);
            }
            assert(entries.skip(i as int).drop_first() =~= entries.skip(i + 1));
            i = i + 1;
        }
        None
    }

    /// Sets the value named `name`, replacing the one in scope if any.
    pub fn insert(&mut self, name: String, value: u64)
        ensures
            final(self)@ == old(self)@.insert(name@, value),
    {
        let ghost entries = self.entries();
        let ghost key = name@;
        let mut i: usize = 0;
        while i < self.0.len()
            invariant
                entries == self.entries(),
                *self == *old(self),
                key == name@,
                i <= entries.len(),
                forall|k: int| 0 <= k < i ==> entries[k].0 != key,
            decreases self.0.len() - i,
        {
            assert(entries[i as int].0 == self.0@[i as int].0@);
            if str_eq(self.0[i].0.as_str(), name.as_str()) {
                let ghost before = self.0@;
                self.0.set(i, (name, value));
                proof {
                    lemma_lookup_update(entries, i as int, key, value);
                    assert(self.0@ == before.update(i as int, (name, value)));
                    assert(self.entries() =~= entries.update(i as int, (key, value)));
                    assert(self@ =~= old(self)@.insert(key, value));
                }
                return;
            }
            i = i + 1;
        }
        self.0.push((name, value));
        proof {
            lemma_lookup_push(entries, key, value);
            assert(self.entries() =~= entries.push((key, value)));
            assert(self@ =~= old(self)@.insert(key, value));
        }
    }

    /// A copy of this context.
    pub fn duplicate(&self) -> (r: Self)
        ensures
            r@ == self@,
    {
        let mut v: Vec<(String, u64)> = Vec::new();
        let mut i: usize = 0;
        while i < self.0.len()
            invariant
                i <= self.0@.len(),
                v@.len() == i,
                forall|k: int| 0 <= k < i ==> (#[trigger] v@[k]).0@ == self.0@[k].0@ && v@[k].1
                    == self.0@[k].1,
            decreases self.0.len() - i,
        {
            v.push((self.0[i].0.clone(), self.0[i].1));
            i = i + 1;
        }
        let r = InheritedValues(v);
        assert(r.entries() =~= self.entries());
        assert(r@ =~= self@);
        r
    }
}

/// The first four bytes of every blob.
pub const FDT_MAGIC: u32 = 0xd00d_feed;

/// The data start with the magic bytes `d0 0d fe ed`.
pub open spec fn has_magic(data: Seq<u8>) -> bool {
    data.len() >= 4 && data[0] == 0xd0 && data[1] == 0x0d && data[2] == 0xfe && data[3] == 0xed
}

/// A tree as mathematical data.
pub struct TreeModel {
    pub header: DeviceTreeHeader,
    pub root: NodeModel,
}

/// The tree that a blob holds: the magic number is checked first, then the header is read,
/// then the root node is decoded from the structure block with two address cells and two
/// size cells in force.
pub open spec fn tree_of(data: Seq<u8>) -> core::result::Result<TreeModel, DeviceTreeError> {
    if data.len() < 4 {
        Err(DeviceTreeError::NotEnoughLength)
    } else if !has_magic(data) {
        Err(DeviceTreeError::InvalidMagicNumber)
    } else if data.len() < HEADER_SIZE {
        Err(DeviceTreeError::NotEnoughLength)
    } else {
        let header = header_of(data);
        match node_at(
            data,
            header.off_dt_strings as int,
            blocks_for(header.off_dt_struct as int),
            default_cells(),
        ) {
            Ok(root) => Ok(TreeModel { header, root: root.0 }),
            Err(e) => Err(e),
        }
    }
}

/// The segments of a path between its `/` separators, from character `from` on; a path
/// with no separator is one segment.
pub open spec fn segments_from(path: Seq<char>, from: int) -> Seq<Seq<char>>
    decreases path.len() - from,
{
    if from < 0 || from > path.len() {
        seq![]
    } else {
        let end = char_index(path, '/', from);
        proof {
            lemma_char_index_bounds(path, '/', from);
        }
        if end >= path.len() {
            seq![path.subrange(from, path.len() as int)]
        } else {
            seq![path.subrange(from, end)] + segments_from(path, end + 1)
        }
    }
}

/// The segments of a path between its `/` separators.
pub open spec fn path_segments(path: Seq<char>) -> Seq<Seq<char>> {
    segments_from(path, 0)
}

/// The node reached from `node` by taking, for each segment, the first child of that name.
pub open spec fn descend(node: NodeModel, segments: Seq<Seq<char>>) -> Option<NodeModel>
    decreases segments.len(),
{
    if segments.len() == 0 {
        Some(node)
    } else {
        match named_child(node.nodes, segments[0]) {
            Some(child) => descend(child, segments.drop_first()),
            None => None,
        }
    }
}

/// The node at `path` below `root`: the path starts with `/`, and each segment after it
/// names a child.
pub open spec fn node_at_path(root: NodeModel, path: Seq<char>) -> Option<NodeModel> {
    let segments = path_segments(path);
    if segments.len() > 0 && segments[0].len() == 0 {
        descend(root, segments.drop_first())
    } else {
        None
    }
}

/// The nodes met from `node` (not included) by taking, for each segment, the first child of
/// that name.
pub open spec fn trail(node: NodeModel, segments: Seq<Seq<char>>) -> Option<Seq<NodeModel>>
    decreases segments.len(),
{
    if segments.len() == 0 {
        Some(seq![])
    } else {
        match named_child(node.nodes, segments[0]) {
            Some(child) => match trail(child, segments.drop_first()) {
                Some(rest) => Some(seq![child] + rest),
                None => None,
            },
            None => None,
        }
    }
}

/// The nodes along `path` from `root`: the first segment names the root itself.
pub open spec fn trail_at_path(root: NodeModel, path: Seq<char>) -> Option<Seq<NodeModel>> {
    let segments = path_segments(path);
    if segments.len() > 0 && segments[0] == root.name {
        match trail(root, segments.drop_first()) {
            Some(rest) => Some(seq![root] + rest),
            None => None,
        }
    } else {
        None
    }
}

/// Views of a sequence of string slices.
pub open spec fn str_views(v: Seq<&str>) -> Seq<Seq<char>> {
    v.map_values(|s: &str| s@)
}

/// Views of a sequence of borrowed nodes.
pub open spec fn node_ref_views(v: Seq<&DeviceTreeNode>) -> Seq<NodeModel> {
    v.map_values(|n: &DeviceTreeNode| n@)
}

/// Splits a path at each `/`.
fn split_path(path: &str) -> (r: Vec<&str>)
    ensures
        str_views(r@) == path_segments(path@),
{
    let n = path.unicode_len();
    let mut res: Vec<&str> = Vec::new();
    let mut start: usize = 0;
    let mut i: usize = 0;
    while i < n
        invariant
            n == path@.len(),
            start <= i <= n,
            char_index(path@, '/', start as int) == char_index(path@, '/', i as int),
            path_segments(path@) == str_views(res@) + segments_from(path@, start as int),
        decreases n - i,
    {
        if path.get_char(i) == '/' {
            let piece = path.substring_char(start, i);
            let ghost before = res@;
            res.push(piece);
            proof {
                lemma_char_index_bounds(path@, '/', start as int);
                assert(str_views(res@) =~= str_views(before).push(piece@));
                assert(segments_from(path@, start as int) == seq![piece@] + segments_from(
                    path@,
                    i + 1,
                ));
                assert(path_segments(path@) =~= str_views(res@) + segments_from(path@, i + 1));
            }
            start = i + 1;
        }
        i = i + 1;
    }
    let last = path.substring_char(start, n);
    let ghost before = res@;
    res.push(last);
    proof {
        lemma_char_index_bounds(path@, '/', start as int);
        assert(str_views(res@) =~= str_views(before).push(last@));
        assert(segments_from(path@, start as int) == seq![last@]);
        assert(path_segments(path@) =~= str_views(res@));
    }
    res
}

/// A decoded tree, or the error met on the way.
pub open spec fn tree_result(r: Result<DeviceTree>) -> core::result::Result<
    TreeModel,
    DeviceTreeError,
> {
    match r {
        Ok(t) => Ok(t@),
        Err(e) => Err(e),
    }
}

/// A decoded device tree: its header and its root node.
pub struct DeviceTree {
    header: DeviceTreeHeader,
    root: DeviceTreeNode,
}

impl View for DeviceTree {
    type V = TreeModel;

    closed spec fn view(&self) -> TreeModel {
        TreeModel { header: self.header, root: self.root@ }
    }
}

impl DeviceTree {
    /// Decodes a whole blob; any failure on the way fails the whole tree.
    pub fn from_bytes(data: &[u8]) -> (r: Result<Self>)
        ensures
            tree_result(r) == tree_of(data@),
    {
        if data.len() < 4 {
            return Err(DeviceTreeError::NotEnoughLength);
        }
        if data[0] != 0xd0 || data[1] != 0x0d || data[2] != 0xfe || data[3] != 0xed {
            return Err(DeviceTreeError::InvalidMagicNumber);
        }
        let header = match DeviceTreeHeader::from_bytes(data) {
            Ok(h) => h,
            Err(e) => {
                return Err(e);
            },
        };
        let root = match DeviceTreeNode::from_bytes(
            data,
            &header,
            header.off_dt_struct as usize,
            InheritedValues::with_defaults(),
        ) {
            Ok(n) => n,
            Err(e) => {
                return Err(e);
            },
        };
        Ok(DeviceTree { header, root })
    }

    /// The magic number from the header.
    pub fn magic(&self) -> (r: usize)
        ensures
            r == self@.header.magic,
    {
        self.header.magic as usize
    }

    /// The total size of the blob from the header.
    pub fn total_size(&self) -> (r: usize)
        ensures
            r == self@.header.total_size,
    {
        self.header.total_size as usize
    }

    /// The offset of the structure block from the header.
    pub fn off_dt_struct(&self) -> (r: usize)
        ensures
            r == self@.header.off_dt_struct,
    {
        self.header.off_dt_struct as usize
    }

    /// The offset of the strings block from the header.
    pub fn off_dt_strings(&self) -> (r: usize)
        ensures
            r == self@.header.off_dt_strings,
    {
        self.header.off_dt_strings as usize
    }

    /// The offset of the reserved memory map from the header.
    pub fn off_mem_reserved(&self) -> (r: usize)
        ensures
            r == self@.header.off_mem_reserved,
    {
        self.header.off_mem_reserved as usize
    }

    /// The format version from the header.
    pub fn version(&self) -> (r: usize)
        ensures
            r == self@.header.version,
    {
        self.header.version as usize
    }

    /// The oldest compatible format version from the header.
    pub fn last_comp_version(&self) -> (r: usize)
        ensures
            r == self@.header.last_comp_version,
    {
        self.header.last_comp_version as usize
    }

    /// The boot CPU's id from the header.
    pub fn boot_cpu_id(&self) -> (r: usize)
        ensures
            r == self@.header.boot_cpu_id,
    {
        self.header.boot_cpu_id as usize
    }

    /// The size of the strings block from the header.
    pub fn size_dt_strings(&self) -> (r: usize)
        ensures
            r == self@.header.size_dt_strings,
    {
        self.header.size_dt_strings as usize
    }

    /// The size of the structure block from the header.
    pub fn size_dt_struct(&self) -> (r: usize)
        ensures
            r == self@.header.size_dt_struct,
    {
        self.header.size_dt_struct as usize
    }

    /// The root node.
    pub fn root(&self) -> (r: &DeviceTreeNode)
        ensures
            r@ == self@.root,
    {
        &self.root
    }
}

impl DeviceTree {
    /// The node at `path`: the path starts with `/` and each segment after it names a
    /// child (the first one of that name).
    pub fn find_node(&self, path: &str) -> (r: Option<&DeviceTreeNode>)
        ensures
            r is Some <==> node_at_path(self@.root, path@) is Some,
            r matches Some(n) ==> node_at_path(self@.root, path@) == Some(n@),
    {
        let segments = split_path(path);
        let ghost segs = path_segments(path@);
        assert(segs.len() == segments@.len() && segs[0] == segments@[0]@);
        if segments[0].unicode_len() != 0 {
            return None;
        }
        let mut node = &self.root;
        let mut i: usize = 1;
        assert(segs.drop_first() =~= segs.skip(1));
        while i < segments.len()
            invariant
                segs == str_views(segments@),
                1 <= i <= segments@.len(),
                node_at_path(self@.root, path@) == descend(node@, segs.skip(i as int)),
            decreases segments.len() - i,
        {
            assert(segs.skip(i as int)[0] == segments@[i as int]@);
            assert(segs.skip(i as int).drop_first() =~= segs.skip(i + 1));
            match node.find_child(segments[i]) {
                Some(child) => {
                    node = child;
                },
                None => {
                    return None;
                },
            }
            i = i + 1;
        }
        assert(segs.skip(i as int) =~= Seq::<Seq<char>>::empty());
        Some(node)
    }

    /// The nodes along `path`, from the root (named by the first segment) to the node the
    /// path ends at.
    pub fn find_along_path(&self, path: &str) -> (r: Option<Vec<&DeviceTreeNode>>)
        ensures
            r is Some <==> trail_at_path(self@.root, path@) is Some,
            r matches Some(v) ==> trail_at_path(self@.root, path@) == Some(node_ref_views(v@)),
    {
        let slices = split_path(path);
        let ghost segs = path_segments(path@);
        let mut container: Vec<&DeviceTreeNode> = Vec::new();
        if slices.len() > 0 && str_eq(self.root.name(), slices[0]) {
            container.push(&self.root);
            assert(segs.drop_first() =~= segs.skip(1));
            assert(node_ref_views(container@) =~= seq![self@.root]);
            if Self::find_along_path_internal(&self.root, &slices, 1, &mut container) {
                Some(container)
            } else {
                None
            }
        } else {
            None
        }
    }

    /// Follows `slices` from `index` on below `node`, adding each node met to `container`.
    fn find_along_path_internal<'tree>(
        node: &'tree DeviceTreeNode,
        slices: &[&str],
        index: usize,
        container: &mut Vec<&'tree DeviceTreeNode>,
    ) -> (r: bool)
        requires
            index <= slices@.len(),
        ensures
            r == trail(node@, str_views(slices@).skip(index as int)) is Some,
            r ==> node_ref_views(final(container)@) == node_ref_views(old(container)@) + trail(
                node@,
                str_views(slices@).skip(index as int),
            )->0,
        decreases slices@.len() - index,
    {
        let ghost segs = str_views(slices@).skip(index as int);
        if index == slices.len() {
            assert(segs =~= Seq::<Seq<char>>::empty());
            assert(node_ref_views(container@) =~= node_ref_views(old(container)@) + seq![]);
            return true;
        }
        assert(segs[0] == slices@[index as int]@);
        assert(segs.drop_first() =~= str_views(slices@).skip(index + 1));
        match node.find_child(slices[index]) {
            Some(child) => {
                let ghost before = container@;
                container.push(child);
                assert(node_ref_views(container@) =~= node_ref_views(before).push(child@));
                let found = Self::find_along_path_internal(child, slices, index + 1, container);
                proof {
                    if found {
                        let rest = trail(child@, segs.drop_first())->0;
                        assert(node_ref_views(before).push(child@) + rest =~= node_ref_views(
                            before,
                        ) + (seq![child@] + rest));
                    }
                }
                found
            },
            None => false,
        }
    }
}

/// A breadth-first walk over the nodes of a tree.
pub struct DeviceTreeNodeIter<'a> {
    queue: VecDeque<&'a DeviceTreeNode>,
}

impl<'a> View for DeviceTreeNodeIter<'a> {
    type V = Seq<NodeModel>;

    /// The nodes still to visit whose children are not yet queued, in order.
    closed spec fn view(&self) -> Seq<NodeModel> {
        node_ref_views(self.queue@)
    }
}

impl<'a> DeviceTreeNodeIter<'a> {
    /// The next node in breadth-first order; its children join the end of the walk.
    pub fn next(&mut self) -> (r: Option<&'a DeviceTreeNode>)
        ensures
            old(self)@.len() == 0 ==> r is None && final(self)@ == old(self)@,
            old(self)@.len() > 0 ==> (r matches Some(n) && n@ == old(self)@[0] && final(self)@
                == old(self)@.drop_first() + n@.nodes),
    {
        let res = self.queue.pop_front();
        match res {
            Some(node) => {
                assert(node_ref_views(self.queue@) =~= old(self)@.drop_first());
                let children = node.nodes();
                let mut i: usize = 0;
                while i < children.len()
                    invariant
                        i <= children@.len(),
                        node_views(children@) == node@.nodes,
                        node_ref_views(self.queue@) == old(self)@.drop_first() + node_views(
                            children@,
                        ).take(i as int),
                    decreases children.len() - i,
                {
                    let ghost before = self.queue@;
                    self.queue.push_back(&children[i]);
                    assert(node_views(children@).take(i + 1) =~= node_views(children@).take(
                        i as int,
                    ).push(children@[i as int]@));
                    assert(node_ref_views(self.queue@) =~= node_ref_views(before).push(
                        children@[i as int]@,
                    ));
                    i = i + 1;
                }
                assert(node_views(children@).take(i as int) =~= node_views(children@));
            },
            None => {},
        }
        res
    }
}

impl DeviceTree {
    /// A breadth-first walk over all the nodes, starting at the root.
    pub fn iter(&self) -> (r: DeviceTreeNodeIter<'_>)
        ensures
            r@ == seq![self@.root],
    {
        let mut queue: VecDeque<&DeviceTreeNode> = VecDeque::new();
        queue.push_back(&self.root);
        let r = DeviceTreeNodeIter { queue };
        assert(r@ =~= seq![self@.root]);
        r
    }
}

/// A blob that decodes carries the magic number, and every header field is the big-endian
/// word stored in that field's block.
pub proof fn lemma_decoded_header(data: Seq<u8>)
    requires
        tree_of(data) is Ok,
    ensures
        tree_of(data)->Ok_0.header.magic == FDT_MAGIC,
        tree_of(data)->Ok_0.header == header_of(data),
        tree_of(data)->Ok_0.header.total_size == block_value(data, 1),
        tree_of(data)->Ok_0.header.off_dt_struct == block_value(data, 2),
        tree_of(data)->Ok_0.header.off_dt_strings == block_value(data, 3),
        tree_of(data)->Ok_0.header.off_mem_reserved == block_value(data, 4),
        tree_of(data)->Ok_0.header.version == block_value(data, 5),
        tree_of(data)->Ok_0.header.last_comp_version == block_value(data, 6),
        tree_of(data)->Ok_0.header.boot_cpu_id == block_value(data, 7),
        tree_of(data)->Ok_0.header.size_dt_strings == block_value(data, 8),
        tree_of(data)->Ok_0.header.size_dt_struct == block_value(data, 9),
{
    assert forall|i: int| 0 <= i < 10 implies 0 <= #[trigger] block_value(data, i)
        < 0x1_0000_0000 by {
        assert(0 <= data[4 * i] < 256 && 0 <= data[4 * i + 1] < 256 && 0 <= data[4 * i + 2]
            < 256 && 0 <= data[4 * i + 3] < 256);
    }
}

/// Decoding depends on the bytes alone: the same bytes always give the same tree, or the
/// same error.
pub proof fn lemma_decoding_deterministic(first: Seq<u8>, second: Seq<u8>)
    requires
        first == second,
    ensures
        tree_of(first) == tree_of(second),
{
}

/// Data of four bytes or more that do not start with `d0 0d fe ed` are refused with
/// `InvalidMagicNumber`.
pub proof fn lemma_wrong_magic(data: Seq<u8>)
    requires
        data.len() >= 4,
        !has_magic(data),
    ensures
        tree_of(data) == Err::<TreeModel, DeviceTreeError>(DeviceTreeError::InvalidMagicNumber),
{
}

/// A non-empty path that does not start with `/` finds no node.
pub proof fn lemma_relative_path(root: NodeModel, path: Seq<char>)
    requires
        path.len() > 0,
        path[0] != '/',
    ensures
        node_at_path(root, path) is None,
{
    lemma_char_index_bounds(path, '/', 0);
    let end = char_index(path, '/', 0);
    assert(end > 0);
    assert(path_segments(path)[0].len() > 0);
}

} // verus!