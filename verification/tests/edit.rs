use ree_save_core::assoc::AssocMap;
use ree_save_core::edit::{entry_caption, Action, field_caption, field_labels, parent_class_hash, PathNode};
use ree_save_core::remap::Remap;

fn remap_with_field(field: &str, ty: &str) -> Remap {
    let mut fields = AssocMap::new();
    fields.insert(field.to_string(), ty.to_string());
    Remap { format: Vec::new(), fields, queries: AssocMap::new(), data: AssocMap::new() }
}

#[test]
fn parent_class_is_last_class() {
    assert_eq!(parent_class_hash(&vec![]), None);
    assert_eq!(parent_class_hash(&vec![PathNode::Field(1), PathNode::Index(2)]), None);
    let path = vec![
        PathNode::Class(10),
        PathNode::Field(11),
        PathNode::Class(20),
        PathNode::Field(21),
        PathNode::Index(3),
        PathNode::Field(22),
    ];
    assert_eq!(parent_class_hash(&path), Some(20));
}

#[test]
fn entering_nodes_sets_parent() {
    let mut path = vec![PathNode::Class(5)];
    path.push(PathNode::Field(9));
    assert_eq!(parent_class_hash(&path), Some(5));
    path.push(PathNode::Class(6));
    assert_eq!(parent_class_hash(&path), Some(6));
    path.pop();
    assert_eq!(parent_class_hash(&path), Some(5));
}

#[test]
fn labels_of_known_field() {
    let remaps = AssocMap::new();
    let l = field_labels(0x1234, Some("app.Enemy"), Some(("_Hp", "System.Int32")), "S32", &remaps);
    assert_eq!(l.class_name, "app.Enemy");
    assert_eq!(l.field_name, "_Hp");
    assert_eq!(l.type_label, "System.Int32");
}

#[test]
fn labels_of_unknown_field() {
    let remaps = AssocMap::new();
    let l = field_labels(0xbeef, None, None, "U32", &remaps);
    assert_eq!(l.class_name, "");
    assert_eq!(l.field_name, "0000beef");
    assert_eq!(l.type_label, "U32");
}

#[test]
fn remapped_field_type() {
    let mut remaps = AssocMap::new();
    remaps.insert("app.Enemy".to_string(), remap_with_field("_Id", "app.EnemyDef.ID_Fixed"));
    let l = field_labels(1, Some("app.Enemy"), Some(("_Id", "System.Int32")), "S32", &remaps);
    assert_eq!(l.type_label, "app.EnemyDef.ID_Fixed");
    let other = field_labels(1, Some("app.Enemy"), Some(("_Hp", "System.Int32")), "S32", &remaps);
    assert_eq!(other.type_label, "System.Int32");
    let elsewhere = field_labels(1, Some("app.Npc"), Some(("_Id", "System.Int32")), "S32", &remaps);
    assert_eq!(elsewhere.type_label, "System.Int32");
}

#[test]
fn remap_keyed_by_hex_name() {
    let mut remaps = AssocMap::new();
    remaps.insert(String::new(), remap_with_field("0000abcd", "ace.Bitset"));
    let l = field_labels(0xabcd, None, None, "U32", &remaps);
    assert_eq!(l.type_label, "ace.Bitset");
}

#[test]
fn captions() {
    let remaps = AssocMap::new();
    let l = field_labels(2, None, Some(("_Items", "app.Item[]")), "Array", &remaps);
    assert_eq!(field_caption(&l, true, None), "_Items: app.Item[]");
    assert_eq!(field_caption(&l, false, Some("Potion")), "_Items: Potion");
    assert_eq!(field_caption(&l, false, None), "_Items:");
    assert_eq!(entry_caption(0x10, 0xff, Some("app.SaveData")), "00000010: app.SaveData");
    assert_eq!(entry_caption(0x10, 0xff, None), "00000010: 000000ff");
}

#[test]
fn actions_carry_their_values() {
    let a: Action<u32, Vec<u8>> = Action::CopyArray(vec![1, 2]);
    assert!(matches!(a, Action::CopyArray(ref v) if v.len() == 2));
    let b: Action<u32, Vec<u8>> = Action::PasteObject(7);
    assert!(matches!(b, Action::PasteObject(7)));
    assert!(matches!(Action::<u32, u8>::ModifyReference, Action::ModifyReference));
}
