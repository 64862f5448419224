//! Bookkeeping of the save editor: where in a save a field stands, and the
//! captions of fields and entries.

use vstd::prelude::*;

use crate::assoc::AssocMap;
use crate::remap::Remap;
use crate::number::{format_hex8, hex8};

verus! {

/// One step of the way from a save's root to a value: a class, a field of it,
/// or an element of an array.
#[derive(Debug, Clone, Copy, PartialEq, Eq, Structural)]
pub enum PathNode {
    Class(u32),
    Field(u32),
    Index(usize),
}

/// What the editor can do with a value: copy or paste an object (of class type
/// `C`) or an array (of type `A`), or change a reference.
pub enum Action<C, A> {
    CopyObject(C),
    CopyArray(A),
    PasteObject(C),
    PasteArray(A),
    ModifyReference,
}

/// The hash of the last class on `path`, if there is one.
pub open spec fn last_class(path: Seq<PathNode>) -> Option<u32>
    decreases path.len(),
{
    if path.len() == 0 {
        None
    } else {
        match path.last() {
            PathNode::Class(h) => Some(h),
            _ => last_class(path.drop_last()),
        }
    }
}

/// The parent class is a class on the path, and no class comes after it; with no
/// class on the path there is none.
pub proof fn law_parent_class_is_last_class(path: Seq<PathNode>)
    ensures
        match last_class(path) {
            Some(h) => exists|i: int|
                0 <= i < path.len() && path[i] == PathNode::Class(h) && forall|j: int|
                    i < j < path.len() ==> !(#[trigger] path[j] is Class),
            None => forall|j: int| 0 <= j < path.len() ==> !(#[trigger] path[j] is Class),
        },
    decreases path.len(),
{
    if path.len() > 0 {
        let t = path.drop_last();
        law_parent_class_is_last_class(t);
        match path.last() {
            PathNode::Class(h) => {
                assert(path[path.len() - 1] == PathNode::Class(h));
            },
            _ => {
                match last_class(t) {
                    Some(h) => {
                        let i = choose|i: int|
                            0 <= i < t.len() && t[i] == PathNode::Class(h) && forall|j: int|
                                i < j < t.len() ==> !(#[trigger] t[j] is Class);
                        assert(path[i] == t[i]);
                        assert forall|j: int| i < j < path.len() implies !(#[trigger] path[j] is Class) by {
                            if j < t.len() {
                                assert(path[j] == t[j]);
                            }
                        }
                    },
                    None => {
                        assert forall|j: int| 0 <= j < path.len() implies !(#[trigger] path[j] is Class) by {
                            if j < t.len() {
                                assert(path[j] == t[j]);
                            }
                        }
                    },
                }
            },
        }
    }
}

/// The class whose field is being edited: the last class on the path.
pub fn parent_class_hash(path: &Vec<PathNode>) -> (r: Option<u32>)
    ensures
        r == last_class(path@),
{
    let mut i = path.len();
    assert(path@.take(i as int) == path@);
    while i > 0
        invariant
            i <= path@.len(),
            last_class(path@) == last_class(path@.take(i as int)),
        decreases i,
    {
        assert(path@.take(i as int).drop_last() == path@.take(i - 1));
        match path[i - 1] {
            PathNode::Class(h) => {
                return Some(h);
            },
            _ => {},
        }
        i = i - 1;
    }
    None
}

/// Entering a class makes it the parent of the fields below it; a field or an
/// array element entered below leaves the parent as it was.
pub proof fn law_parent_class_after_push(path: Seq<PathNode>, node: PathNode)
    ensures
        last_class(path.push(node)) == match node {
            PathNode::Class(h) => Some(h),
            _ => last_class(path),
        },
{
    assert(path.push(node).drop_last() == path);
}

/// The names under which a field is shown.
pub struct FieldLabels {
    /// The name of the field's class, or empty where the class is unknown.
    pub class_name: String,
    /// The field's name, or its hash in eight hexadecimal digits.
    pub field_name: String,
    /// The field's type, as remapped for its class where a remap names it.
    pub type_label: String,
}

/// The type label of a field: the one that the remap of its class gives it, else
/// the declared type, else `fallback`.
pub open spec fn type_label_of(
    remaps: Map<Seq<char>, Remap>,
    class_name: Seq<char>,
    field_name: Seq<char>,
    declared: Option<Seq<char>>,
    fallback: Seq<char>,
) -> Seq<char> {
    if remaps.contains_key(class_name) && remaps[class_name].fields@.contains_key(field_name) {
        remaps[class_name].fields@[field_name]@
    } else {
        match declared {
            Some(t) => t,
            None => fallback,
        }
    }
}

/// Where the remap of a field's class names a type for the field, that type is
/// the field's label, whatever type the field is declared with.
pub proof fn law_class_remap_decides_type_label(
    remaps: Map<Seq<char>, Remap>,
    class_name: Seq<char>,
    field_name: Seq<char>,
    declared: Option<Seq<char>>,
    fallback: Seq<char>,
)
    requires
        remaps.contains_key(class_name),
        remaps[class_name].fields@.contains_key(field_name),
    ensures
        type_label_of(remaps, class_name, field_name, declared, fallback)
            == remaps[class_name].fields@[field_name]@,
{
}

/// Where no remap of the field's class names its type, the label is the declared
/// type, or the fallback where the field is not declared.
pub proof fn law_unremapped_type_label(
    remaps: Map<Seq<char>, Remap>,
    class_name: Seq<char>,
    field_name: Seq<char>,
    declared: Option<Seq<char>>,
    fallback: Seq<char>,
)
    requires
        !(remaps.contains_key(class_name) && remaps[class_name].fields@.contains_key(field_name)),
    ensures
        type_label_of(remaps, class_name, field_name, declared, fallback) == match declared {
            Some(t) => t,
            None => fallback,
        },
{
}

/// The labels of the field with hash `field_hash`. `class_name` is the name of
/// its class where the type information knows the class; `field_info` the name
/// and declared type of the field where it knows the field; `field_type_text` how
/// the field's stored type reads.
pub fn field_labels(
    field_hash: u32,
    class_name: Option<&str>,
    field_info: Option<(&str, &str)>,
    field_type_text: &str,
    remaps: &AssocMap<String, Remap>,
) -> (l: FieldLabels)
    ensures
        l.class_name@ == match class_name {
            Some(c) => c@,
            None => Seq::<char>::empty(),
        },
        l.field_name@ == match field_info {
            Some(f) => f.0@,
            None => hex8(field_hash),
        },
        l.type_label@ == type_label_of(
            remaps@,
            l.class_name@,
            l.field_name@,
            match field_info {
                Some(f) => Some(f.1@),
                None => None,
            },
            field_type_text@,
        ),
        remaps@.contains_key(l.class_name@) && remaps@[l.class_name@].fields@.contains_key(
            l.field_name@,
        ) ==> l.type_label@ == remaps@[l.class_name@].fields@[l.field_name@]@,
        !(remaps@.contains_key(l.class_name@) && remaps@[l.class_name@].fields@.contains_key(
            l.field_name@,
        )) ==> l.type_label@ == match field_info {
            Some(f) => f.1@,
            None => field_type_text@,
        },
{
    let class: String = match class_name {
        Some(c) => c.to_owned(),
        None => String::new(),
    };
    let field: String = match field_info {
        Some(f) => f.0.to_owned(),
        None => format_hex8(field_hash),
    };
    let mut type_label: String = match field_info {
        Some(f) => f.1.to_owned(),
        None => field_type_text.to_owned(),
    };
    if let Some(remap) = remaps.get(&class) {
        if let Some(remapped) = remap.fields.get(&field) {
            type_label = remapped.clone();
        }
    }
    FieldLabels { class_name: class, field_name: field, type_label }
}

/// The caption of a field: `name: type` for a class or an array, which opens
/// below it; otherwise `name: text` with the remapped text of its value, or
/// `name:` where there is none.
pub fn field_caption(labels: &FieldLabels, opens: bool, remapped_text: Option<&str>) -> (s: String)
    ensures
        s@ == if opens {
            labels.field_name@ + seq![':', ' '] + labels.type_label@
        } else {
            match remapped_text {
                Some(t) => labels.field_name@ + seq![':', ' '] + t@,
                None => labels.field_name@ + seq![':'],
            }
        },
{
    proof {
        reveal_strlit(": ");
        reveal_strlit(":");
    }
    let s = labels.field_name.clone();
    if opens {
        s.concat(": ").concat(labels.type_label.as_str())
    } else {
        match remapped_text {
            Some(t) => s.concat(": ").concat(t),
            None => s.concat(":"),
        }
    }
}

/// The caption of a save entry: its key in eight hexadecimal digits, then the
/// name of its class, or the class hash in eight hexadecimal digits where the
/// name is unknown.
pub fn entry_caption(key: u32, class_hash: u32, class_name: Option<&str>) -> (s: String)
    ensures
        s@ == hex8(key) + seq![':', ' '] + match class_name {
            Some(c) => c@,
            None => hex8(class_hash),
        },
{
    proof {
        reveal_strlit(": ");
    }
    let label = match class_name {
        Some(c) => c.to_owned(),
        None => format_hex8(class_hash),
    };
    format_hex8(key).concat(": ").concat(label.as_str())
}

} // verus!
