use dtb_parser::device_tree::{DeviceTree, InheritedValues};
use dtb_parser::error::DeviceTreeError;
use dtb_parser::header::DeviceTreeHeader;
use dtb_parser::node::DeviceTreeNode;
use dtb_parser::prop::PropertyValue;
use dtb_parser::structure::StructureToken;
use dtb_parser::traits::{FindPropertyValue, HasNamedChildNode, HasNamedProperty};

const MAGIC: [u8; 4] = [0xd0, 0x0d, 0xfe, 0xed];
const HEADER_BYTES: usize = 40;
const RESERVE_BYTES: usize = 16;

/// Writes a blob token by token: structure block, strings block and header.
struct Blob {
    structure: Vec<u8>,
    strings: Vec<u8>,
}

impl Blob {
    fn new() -> Blob {
        Blob { structure: Vec::new(), strings: Vec::new() }
    }

    fn word(&mut self, w: u32) -> &mut Blob {
        self.structure.extend_from_slice(&w.to_be_bytes());
        self
    }

    fn pad(&mut self) {
        while self.structure.len() % 4 != 0 {
            self.structure.push(0);
        }
    }

    fn begin(&mut self, name: &str) -> &mut Blob {
        self.begin_raw(name.as_bytes())
    }

    fn begin_raw(&mut self, name: &[u8]) -> &mut Blob {
        self.word(1);
        self.structure.extend_from_slice(name);
        self.structure.push(0);
        self.pad();
        self
    }

    fn end(&mut self) -> &mut Blob {
        self.word(2)
    }

    fn nop(&mut self) -> &mut Blob {
        self.word(4)
    }

    fn name_offset(&mut self, name: &str) -> u32 {
        let offset = self.strings.len() as u32;
        self.strings.extend_from_slice(name.as_bytes());
        self.strings.push(0);
        offset
    }

    fn prop(&mut self, name: &str, value: &[u8]) -> &mut Blob {
        let offset = self.name_offset(name);
        self.word(3);
        self.word(value.len() as u32);
        self.word(offset);
        self.structure.extend_from_slice(value);
        self.pad();
        self
    }

    fn prop_cells(&mut self, name: &str, cells: &[u32]) -> &mut Blob {
        let mut bytes = Vec::new();
        for c in cells {
            bytes.extend_from_slice(&c.to_be_bytes());
        }
        self.prop(name, &bytes)
    }

    fn prop_str(&mut self, name: &str, value: &str) -> &mut Blob {
        let mut bytes = value.as_bytes().to_vec();
        bytes.push(0);
        self.prop(name, &bytes)
    }

    fn finish(&mut self) -> Vec<u8> {
        self.word(9);
        let off_struct = HEADER_BYTES + RESERVE_BYTES;
        let off_strings = off_struct + self.structure.len();
        let total = off_strings + self.strings.len();
        let fields: [u32; 9] = [
            total as u32,
            off_struct as u32,
            off_strings as u32,
            HEADER_BYTES as u32,
            17,
            16,
            0,
            self.strings.len() as u32,
            self.structure.len() as u32,
        ];
        let mut data = MAGIC.to_vec();
        for f in fields {
            data.extend_from_slice(&f.to_be_bytes());
        }
        data.extend_from_slice(&[0u8; RESERVE_BYTES]);
        data.extend_from_slice(&self.structure);
        data.extend_from_slice(&self.strings);
        data
    }
}

/// A small board: two CPUs, memory, and a bus with one device.
fn board() -> Vec<u8> {
    let mut b = Blob::new();
    b.begin("")
        .prop_cells("#address-cells", &[2])
        .prop_cells("#size-cells", &[2])
        .prop_str("model", "test-board")
        .prop("compatible", b"vendor,board\0vendor,family\0");
    b.begin("cpus")
        .prop_cells("#address-cells", &[1])
        .prop_cells("#size-cells", &[0]);
    b.begin("cpu@0").prop_str("device_type", "cpu").prop_cells("reg", &[0]).end();
    b.begin("cpu@1").prop_str("device_type", "cpu").prop_cells("reg", &[1]).end();
    b.end();
    b.begin("memory@0")
        .prop_str("device_type", "memory")
        .prop_cells("reg", &[0, 0x8000_0000, 0, 0x0800_0000, 1, 0, 0, 0x1000])
        .end();
    b.begin("soc")
        .prop_cells("#address-cells", &[2])
        .prop_cells("#size-cells", &[2])
        .prop_str("compatible", "simple-bus")
        .prop("ranges", &[]);
    b.begin("uart@10000000")
        .prop_cells("interrupt-parent", &[3])
        .prop_cells("interrupts", &[10])
        .prop_cells("reg", &[0, 0x1000_0000, 0, 0x100])
        .prop_str("status", "okay")
        .end();
    b.end();
    b.end();
    b.finish()
}

fn parse(data: &[u8]) -> DeviceTree {
    DeviceTree::from_bytes(data).unwrap()
}

#[test]
fn node_name() {
    let dtb = board();
    let tree = DeviceTree::from_bytes(&dtb).unwrap();
    assert_eq!(tree.root().name(), "");
    assert!(!matches!(tree.root().find_child("cpus"), None));
    assert!(!matches!(tree.root().find_child("memory@0"), None));
    assert!(matches!(tree.root().find_child("cpu@0"), None));
}

#[test]
fn prop_name() {
    let dtb = board();
    let tree = DeviceTree::from_bytes(&dtb).unwrap();
    assert!(!matches!(tree.root().find_prop("model"), None));
    assert!(!matches!(tree.root().find_prop("#address-cells"), None));
    assert!(matches!(tree.root().find_prop("#interrupt-cells"), None));

    let soc = tree.root().find_child("soc");
    assert!(!matches!(soc, None));
    assert!(matches!(soc.unwrap().find_child("soc_gpio1"), None));
}

#[test]
fn find_node() {
    let dtb = board();
    let tree = DeviceTree::from_bytes(&dtb).unwrap();
    assert!(!matches!(tree.find_node("/cpus/cpu@0"), None));
}

#[test]
fn find_path() {
    let dtb = board();
    let tree = DeviceTree::from_bytes(&dtb).unwrap();
    let path = tree.find_along_path("/cpus/cpu@0").unwrap();
    assert!(matches!(path.last().unwrap().name(), "cpu@0"));
}

#[test]
fn cpu_type_name() {
    let dtb = board();
    let tree = DeviceTree::from_bytes(&dtb).unwrap();
    let node = tree.find_node("/cpus/cpu@0").unwrap();
    assert_eq!(node.node_type(), "cpu");
}

fn values_equal(a: &DeviceTreeNode, b: &DeviceTreeNode) -> bool {
    if a.name() != b.name() || a.props().len() != b.props().len() || a.nodes().len() != b.nodes().len() {
        return false;
    }
    for (p, q) in a.props().iter().zip(b.props().iter()) {
        if p.name() != q.name() || format!("{:?}", p.value()) != format!("{:?}", q.value()) {
            return false;
        }
    }
    a.nodes().iter().zip(b.nodes().iter()).all(|(x, y)| values_equal(x, y))
}

#[test]
fn header_fields_are_read_from_their_blocks() {
    let dtb = board();
    let tree = parse(&dtb);
    assert_eq!(tree.magic(), 0xd00d_feed);
    assert_eq!(tree.total_size(), dtb.len());
    assert_eq!(tree.off_dt_struct(), 56);
    assert_eq!(tree.off_mem_reserved(), 40);
    assert_eq!(tree.version(), 17);
    assert_eq!(tree.last_comp_version(), 16);
    assert_eq!(tree.boot_cpu_id(), 0);
    assert_eq!(tree.off_dt_strings(), 56 + tree.size_dt_struct());
    assert_eq!(tree.off_dt_strings() + tree.size_dt_strings(), dtb.len());
}

#[test]
fn header_needs_forty_bytes() {
    let dtb = board();
    assert!(matches!(DeviceTreeHeader::from_bytes(&dtb[..39]), Err(DeviceTreeError::NotEnoughLength)));
    let h = DeviceTreeHeader::from_bytes(&dtb).unwrap();
    assert_eq!(h.magic, 0xd00d_feed);
    assert_eq!(h.total_size as usize, dtb.len());
}

#[test]
fn name_parts_rebuild_the_name() {
    let dtb = board();
    let tree = parse(&dtb);
    let cpu = tree.find_node("/cpus/cpu@1").unwrap();
    assert_eq!(cpu.node_type(), "cpu");
    assert_eq!(cpu.index_name(), "1");
    assert_eq!(format!("{}@{}", cpu.node_type(), cpu.index_name()), cpu.name());
    let uart = tree.find_node("/soc/uart@10000000").unwrap();
    assert_eq!(uart.node_type(), "uart");
    assert_eq!(uart.index_name(), "10000000");
    let cpus = tree.find_node("/cpus").unwrap();
    assert_eq!(cpus.node_type(), "cpus");
    assert_eq!(cpus.index_name(), "cpus");
    assert_eq!(cpus.name(), "cpus");
}

#[test]
fn reg_with_several_groups_gives_each_pair() {
    let dtb = board();
    let tree = parse(&dtb);
    let memory = tree.find_node("/memory@0").unwrap();
    match memory.value("reg") {
        Some(PropertyValue::Addresses(v)) => {
            assert_eq!(v, &vec![(0x8000_0000u64, 0x0800_0000u64), (0x1_0000_0000u64, 0x1000u64)]);
        }
        other => panic!("unexpected {:?}", other),
    }
    let uart = tree.find_node("/soc/uart@10000000").unwrap();
    assert!(matches!(uart.value("reg"), Some(PropertyValue::Address(0x1000_0000, 0x100))));
}

#[test]
fn parsing_twice_gives_the_same_tree() {
    let dtb = board();
    let first = parse(&dtb);
    let second = parse(&dtb);
    assert_eq!(first.magic(), second.magic());
    assert_eq!(first.total_size(), second.total_size());
    assert_eq!(first.size_dt_struct(), second.size_dt_struct());
    assert!(values_equal(first.root(), second.root()));
}

#[test]
fn path_lookup_finds_and_misses() {
    let dtb = board();
    let tree = parse(&dtb);
    let node = tree.find_node("/cpus/cpu@0").unwrap();
    assert_eq!(node.name(), "cpu@0");
    assert_eq!(node.node_type(), "cpu");
    assert!(tree.find_node("/cpus/cpu@99").is_none());
    assert!(tree.find_node("nonrooted").is_none());
    assert!(tree.find_node("/").is_none());
    assert_eq!(tree.find_node("").unwrap().name(), "");
    let trail = tree.find_along_path("/soc/uart@10000000").unwrap();
    let names: Vec<&str> = trail.iter().map(|n| n.name()).collect();
    assert_eq!(names, vec!["", "soc", "uart@10000000"]);
    assert!(tree.find_along_path("/soc/missing").is_none());
    assert!(tree.find_along_path("x/soc").is_none());
}

#[test]
fn children_read_reg_with_the_parent_cells() {
    let dtb = board();
    let tree = parse(&dtb);
    let cpu = tree.find_node("/cpus/cpu@1").unwrap();
    assert!(matches!(cpu.value("reg"), Some(PropertyValue::Address(1, 0))));
}

#[test]
fn reg_without_cells_in_scope_is_refused() {
    let mut b = Blob::new();
    b.begin("dev").prop_cells("reg", &[0, 1, 0, 2]).end();
    let data = b.finish();
    let header = DeviceTreeHeader::from_bytes(&data).unwrap();
    let r = DeviceTreeNode::from_bytes(&data, &header, header.off_dt_struct as usize, InheritedValues::new());
    assert!(matches!(r, Err(DeviceTreeError::MissingCellParameter)));
    let empty = InheritedValues::new();
    let v = PropertyValue::parse_value(&[0, 0, 0, 1], "reg", &empty, &empty);
    assert!(matches!(v, Err(DeviceTreeError::MissingCellParameter)));
    let with = InheritedValues::with_defaults();
    let node = DeviceTreeNode::from_bytes(&data, &header, header.off_dt_struct as usize, with).unwrap();
    assert!(matches!(node.value("reg"), Some(PropertyValue::Address(1, 2))));
}

#[test]
fn wrong_magic_is_refused() {
    let mut dtb = board();
    dtb[0] = 0xd1;
    assert!(matches!(DeviceTree::from_bytes(&dtb), Err(DeviceTreeError::InvalidMagicNumber)));
    assert!(matches!(DeviceTree::from_bytes(&[0, 0, 0, 0, 0]), Err(DeviceTreeError::InvalidMagicNumber)));
}

#[test]
fn unknown_token_is_refused() {
    let mut b = Blob::new();
    b.begin("").word(5).end();
    let data = b.finish();
    assert!(matches!(DeviceTree::from_bytes(&data), Err(DeviceTreeError::InvalidToken)));
}

#[test]
fn root_must_begin_a_node() {
    let mut b = Blob::new();
    b.nop();
    let data = b.finish();
    assert!(matches!(DeviceTree::from_bytes(&data), Err(DeviceTreeError::InvalidToken)));
}

#[test]
fn short_buffers_are_refused() {
    assert!(matches!(DeviceTree::from_bytes(&[]), Err(DeviceTreeError::NotEnoughLength)));
    assert!(matches!(DeviceTree::from_bytes(&MAGIC[..3]), Err(DeviceTreeError::NotEnoughLength)));
    assert!(matches!(DeviceTree::from_bytes(&MAGIC), Err(DeviceTreeError::NotEnoughLength)));
}

#[test]
fn unterminated_structure_fails() {
    let mut b = Blob::new();
    b.begin("");
    let mut data = b.finish();
    // drop the end token so that the walk runs off the data
    let cut = data.len() - 4;
    data.truncate(cut);
    assert!(matches!(DeviceTree::from_bytes(&data), Err(DeviceTreeError::ParsingFailed)));
}

#[test]
fn property_past_the_data_is_refused() {
    let mut b = Blob::new();
    b.begin("").prop("x", &[1, 2, 3, 4]).end();
    let mut data = b.finish();
    assert!(DeviceTree::from_bytes(&data).is_ok());
    // the length word of the property: after the header, the reserve map, the node token,
    // the padded empty name and the property token
    let at = 56 + 4 + 4 + 4;
    data[at..at + 4].copy_from_slice(&0x1000u32.to_be_bytes());
    assert!(matches!(DeviceTree::from_bytes(&data), Err(DeviceTreeError::NotEnoughLength)));
}

#[test]
fn nop_tokens_are_skipped() {
    let mut b = Blob::new();
    b.begin("").nop().prop_cells("a", &[7]).nop().begin("child").end().end();
    let data = b.finish();
    let tree = parse(&data);
    assert!(matches!(tree.root().value("a"), Some(PropertyValue::Integer(7))));
    assert_eq!(tree.root().nodes().len(), 1);
    assert!(tree.root().has_children());
    assert!(tree.root().has_props());
    assert!(!tree.root().nodes()[0].has_children());
    assert!(!tree.root().nodes()[0].has_props());
}

#[test]
fn names_must_be_utf8() {
    let mut b = Blob::new();
    b.begin_raw(&[0xff, 0xfe]).end();
    let data = b.finish();
    assert!(matches!(DeviceTree::from_bytes(&data), Err(DeviceTreeError::ParsingFailed)));
    let mut c = Blob::new();
    c.begin("caf\u{e9}@1").end();
    let data = c.finish();
    let tree = parse(&data);
    assert_eq!(tree.root().name(), "caf\u{e9}@1");
    assert_eq!(tree.root().node_type(), "caf\u{e9}");
    assert_eq!(tree.root().index_name(), "1");
}

#[test]
fn text_properties() {
    let dtb = board();
    let tree = parse(&dtb);
    let root = tree.root();
    match root.value("compatible") {
        Some(PropertyValue::Strings(v)) => assert_eq!(v, &vec!["vendor,board".to_string(), "vendor,family".to_string()]),
        other => panic!("unexpected {:?}", other),
    }
    match root.value("model") {
        Some(PropertyValue::String(s)) => assert_eq!(s, "test-board"),
        other => panic!("unexpected {:?}", other),
    }
    match tree.find_node("/cpus/cpu@0").unwrap().of_value("device_type") {
        Some(PropertyValue::String(s)) => assert_eq!(s, "cpu"),
        other => panic!("unexpected {:?}", other),
    }
}

#[test]
fn named_integer_properties() {
    let dtb = board();
    let tree = parse(&dtb);
    let uart = tree.find_node("/soc/uart@10000000").unwrap();
    assert!(matches!(uart.value("interrupt-parent"), Some(PropertyValue::PHandle(3))));
    assert!(matches!(uart.value("interrupts"), Some(PropertyValue::Integer(10))));
    assert!(matches!(tree.root().value("#size-cells"), Some(PropertyValue::Integer(2))));
    assert!(matches!(tree.find_node("/soc").unwrap().value("ranges"), Some(PropertyValue::Empty)));
    let p = tree.root().find_prop("model").unwrap();
    assert_eq!(p.name(), "model");
}

#[test]
fn values_by_name() {
    let ctx = InheritedValues::with_defaults();
    let empty = InheritedValues::new();
    let v = PropertyValue::parse_value(&[0, 0, 0, 9], "phandle", &empty, &empty).unwrap();
    assert!(matches!(v, PropertyValue::Integer(9)));
    let v = PropertyValue::parse_value(&[0, 0, 1, 0], "virtual-reg", &empty, &empty).unwrap();
    assert!(matches!(v, PropertyValue::Integer(256)));
    let v = PropertyValue::parse_value(&[0, 0, 0, 2], "#interrupt-cells", &empty, &empty).unwrap();
    assert!(matches!(v, PropertyValue::Integer(2)));
    let v = PropertyValue::parse_value(&[0, 0], "phandle", &empty, &empty);
    assert!(matches!(v, Err(DeviceTreeError::ParsingFailed)));
    let v = PropertyValue::parse_value(b"okay\0", "status", &empty, &empty).unwrap();
    assert!(matches!(v, PropertyValue::String(ref s) if s == "okay"));
    let v = PropertyValue::parse_value(b"okay", "status", &empty, &empty);
    assert!(matches!(v, Err(DeviceTreeError::ParsingFailed)));
    let v = PropertyValue::parse_value(&[], "reg", &empty, &empty).unwrap();
    assert!(matches!(v, PropertyValue::Empty));
    let v = PropertyValue::parse_value(&[0, 0, 0, 1, 0, 0, 0, 2, 0, 0, 0, 3, 0, 0, 0, 4], "reg", &ctx, &ctx).unwrap();
    assert!(matches!(v, PropertyValue::Address(0x1_0000_0002, 0x3_0000_0004)));
}

#[test]
fn reg_with_unusable_widths_fails() {
    let mut wide = InheritedValues::new();
    wide.insert("#address-cells".to_string(), 3);
    wide.insert("#size-cells".to_string(), 1);
    let v = PropertyValue::parse_value(&[0; 16], "reg", &wide, &wide);
    assert!(matches!(v, Err(DeviceTreeError::ParsingFailed)));
    let mut none = InheritedValues::new();
    none.insert("#address-cells".to_string(), 0);
    none.insert("#size-cells".to_string(), 0);
    let v = PropertyValue::parse_value(&[0; 4], "reg", &none, &none);
    assert!(matches!(v, Err(DeviceTreeError::ParsingFailed)));
    let ctx = InheritedValues::with_defaults();
    let v = PropertyValue::parse_value(&[0; 12], "reg", &ctx, &ctx);
    assert!(matches!(v, Err(DeviceTreeError::ParsingFailed)));
}

#[test]
fn ranges_use_own_and_parent_cells() {
    let mut own = InheritedValues::new();
    own.insert("#address-cells".to_string(), 3);
    own.insert("#size-cells".to_string(), 2);
    let mut parent = InheritedValues::new();
    parent.insert("#address-cells".to_string(), 1);
    let mut raw = Vec::new();
    for w in [0x0200_0000u32, 0, 0x4000_0000, 0x4000_0000, 0, 0x1000_0000] {
        raw.extend_from_slice(&w.to_be_bytes());
    }
    let v = PropertyValue::parse_value(&raw, "ranges", &parent, &own).unwrap();
    match v {
        PropertyValue::Ranges(r) => {
            assert_eq!(r, vec![((0x0200_0000u128 << 64) | 0x4000_0000u128, 0x4000_0000u64, 0x1000_0000u64)]);
        }
        other => panic!("unexpected {:?}", other),
    }
    let v = PropertyValue::parse_value(&raw, "dma-ranges", &parent, &parent);
    assert!(matches!(v, Err(DeviceTreeError::MissingCellParameter)));
}

#[test]
fn unnamed_shapes_are_guessed() {
    let empty = InheritedValues::new();
    let v = PropertyValue::parse_value(&[0, 0, 0, 1, 0, 0, 0, 2], "interrupts", &empty, &empty).unwrap();
    match v {
        PropertyValue::Integers(x) => assert_eq!(x, vec![1, 2]),
        other => panic!("unexpected {:?}", other),
    }
    let v = PropertyValue::parse_value(b"abc\0", "label", &empty, &empty).unwrap();
    assert!(matches!(v, PropertyValue::String(ref s) if s == "abc"));
    let v = PropertyValue::parse_value(b"ab\0cd\0", "label", &empty, &empty).unwrap();
    match v {
        PropertyValue::Strings(x) => assert_eq!(x, vec!["ab".to_string(), "cd".to_string()]),
        other => panic!("unexpected {:?}", other),
    }
    let v = PropertyValue::parse_value(&[0x80, 0, 0, 0], "label", &empty, &empty).unwrap();
    assert!(matches!(v, PropertyValue::Integer(0x8000_0000)));
}

#[test]
fn inherited_values_replace_and_find() {
    let mut ctx = InheritedValues::new();
    assert_eq!(ctx.find("#address-cells"), None);
    ctx.insert("#address-cells".to_string(), 1);
    ctx.insert("#size-cells".to_string(), 0);
    ctx.insert("#address-cells".to_string(), 3);
    assert_eq!(ctx.find("#address-cells"), Some(3));
    assert_eq!(ctx.find("#size-cells"), Some(0));
    let copy = ctx.duplicate();
    assert_eq!(copy.find("#address-cells"), Some(3));
    let defaults = InheritedValues::with_defaults();
    assert_eq!(defaults.find("#address-cells"), Some(2));
    assert_eq!(defaults.find("#size-cells"), Some(2));
}

#[test]
fn breadth_first_walk() {
    let dtb = board();
    let tree = parse(&dtb);
    let mut it = tree.iter();
    let mut names = Vec::new();
    while let Some(n) = it.next() {
        names.push(n.name().to_string());
    }
    assert_eq!(names, vec!["", "cpus", "memory@0", "soc", "cpu@0", "cpu@1", "uart@10000000"]);
}

#[test]
fn structure_tokens() {
    assert_eq!(StructureToken::from_u32(1), Some(StructureToken::BeginNode));
    assert_eq!(StructureToken::from_u32(2), Some(StructureToken::EndNode));
    assert_eq!(StructureToken::from_u32(3), Some(StructureToken::Property));
    assert_eq!(StructureToken::from_u32(4), Some(StructureToken::Nop));
    assert_eq!(StructureToken::from_u32(9), Some(StructureToken::End));
    assert_eq!(StructureToken::from_u32(5), None);
    assert_eq!(StructureToken::from_u32(0), None);
}

#[test]
fn own_cells_apply_to_later_siblings_only() {
    let mut b = Blob::new();
    b.begin("")
        .prop_cells("reg", &[0, 1, 0, 2])
        .prop_cells("#address-cells", &[1])
        .prop_cells("#size-cells", &[1]);
    b.begin("dev").prop_cells("reg", &[5, 6]).end();
    b.end();
    let data = b.finish();
    let tree = parse(&data);
    assert!(matches!(tree.root().value("reg"), Some(PropertyValue::Address(1, 2))));
    let dev = tree.find_node("/dev").unwrap();
    assert!(matches!(dev.value("reg"), Some(PropertyValue::Address(5, 6))));
}
