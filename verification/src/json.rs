//! JSON documents, as `serde_json` holds them.

use vstd::prelude::*;
use vstd::string::*;

verus! {

/// A JSON value of `serde_json`.
#[verifier::external_type_specification]
#[verifier::external_body]
pub struct ExValue(serde_json::Value);

/// What stands at one place of a JSON document.
pub enum Node {
    /// An object; its members stand at longer paths.
    Object,
    /// A string.
    Text(Seq<char>),
    /// A whole number.
    Number(nat),
}

/// A JSON document: what stands at each path of keys from its root.
pub type Document = Map<Seq<Seq<char>>, Node>;

/// The document that a JSON value holds.
pub uninterp spec fn document(value: serde_json::Value) -> Map<Seq<Seq<char>>, Node>;

/// A document of one node.
pub open spec fn leaf(node: Node) -> Document {
    Map::empty().insert(Seq::empty(), node)
}

/// Whether the root of `doc` is an object.
pub open spec fn is_object(doc: Document) -> bool {
    doc.contains_key(Seq::empty()) && doc[Seq::empty()] is Object
}

/// Whether `path` leads into the member `key`.
pub open spec fn leads_into(path: Seq<Seq<char>>, key: Seq<char>) -> bool {
    path.len() > 0 && path[0] == key
}

/// `doc` with `member` under `key`, in place of what was there.
pub open spec fn with_member(doc: Document, key: Seq<char>, member: Document) -> Document {
    Map::new(
        |path: Seq<Seq<char>>|
            if leads_into(path, key) {
                member.contains_key(path.skip(1))
            } else {
                doc.contains_key(path)
            },
        |path: Seq<Seq<char>>|
            if leads_into(path, key) {
                member[path.skip(1)]
            } else {
                doc[path]
            },
    )
}

/// The member of `doc` under `key`.
pub open spec fn member_of(doc: Document, key: Seq<char>) -> Document {
    Map::new(
        |path: Seq<Seq<char>>| doc.contains_key(seq![key] + path),
        |path: Seq<Seq<char>>| doc[seq![key] + path],
    )
}

/// `serde_json::Value::Object` of an empty map. Trusted: the document is an object without members.
#[verifier::external_body]
pub(crate) fn json_object() -> (r: serde_json::Value)
    ensures
        document(r) == leaf(Node::Object),
{
    serde_json::Value::Object(serde_json::Map::new())
}

/// `serde_json::Value::from` on a string. Trusted: the document is that string.
#[verifier::external_body]
pub(crate) fn json_text(text: &str) -> (r: serde_json::Value)
    ensures
        document(r) == leaf(Node::Text(text@)),
{
    serde_json::Value::from(text)
}

/// `serde_json::Value::from` on an integer. Trusted: the document is that number.
#[verifier::external_body]
pub(crate) fn json_number(number: u64) -> (r: serde_json::Value)
    ensures
        document(r) == leaf(Node::Number(number as nat)),
{
    serde_json::Value::from(number)
}

/// `serde_json::Value`'s indexing by a key, for writing. Trusted: on an object this is a reference
/// to the member under that key, and what is written to it becomes that member. A key that is not
/// there yet gets a member too, of which nothing is stated before it is written.
#[verifier::external_body]
pub(crate) fn json_member<'a>(object: &'a mut serde_json::Value, key: &str) -> (r: &'a mut
    serde_json::Value)
    requires
        is_object(document(*old(object))),
    ensures
        document(*old(object)).contains_key(seq![key@]) ==> document(*r) == member_of(
            document(*old(object)),
            key@,
        ),
        document(*final(object)) == with_member(document(*old(object)), key@, document(*final(r))),
{
    &mut object[key]
}

/// Puts `member` under `key`.
pub(crate) fn set_member(object: &mut serde_json::Value, key: &str, member: serde_json::Value)
    requires
        is_object(document(*old(object))),
    ensures
        document(*final(object)) == with_member(document(*old(object)), key@, document(member)),
{
    *json_member(object, key) = member;
}

/// Law: a member that was set is what is read under its key, and every other member stays; so does
/// what stands at the root.
pub proof fn law_set_member_is_read_back(
    doc: Document,
    key: Seq<char>,
    member: Document,
    other: Seq<char>,
)
    ensures
        member_of(with_member(doc, key, member), key) == member,
        other != key ==> member_of(with_member(doc, key, member), other) == member_of(doc, other),
        is_object(with_member(doc, key, member)) <==> is_object(doc),
{
    let built = with_member(doc, key, member);
    assert forall|path: Seq<Seq<char>>| (#[trigger] (seq![key] + path)).skip(1) == path by {
        assert((seq![key] + path).skip(1) =~= path);
    }
    assert forall|path: Seq<Seq<char>>| #[trigger] member_of(built, key).contains_key(path)
        == member.contains_key(path) by {
        assert(leads_into(seq![key] + path, key));
    }
    assert(member_of(built, key) =~= member);
    if other != key {
        assert(member_of(built, other) =~= member_of(doc, other));
    }
}

} // verus!
