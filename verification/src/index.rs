//! Loading an index document: from the text of an archive member to the one
//! tree that it holds.

use crate::tree::{trees, Entry, Node, Tree};
use vstd::prelude::*;

verus! {

/// Why an index could not be read.
#[derive(Debug, Clone, Copy, PartialEq, Eq)]
pub enum IndexError {
    /// The archive has no member of the name that the manifest gives.
    MemberNotFound,
    /// The member could not be read as UTF-8 text.
    Unreadable,
    /// The text of the member is not well-formed.
    Malformed,
    /// The text does not hold exactly one document.
    NotSingleDocument,
    /// The document is not a sequence.
    ExpectedSequence,
    /// The document is not a sequence of mappings with one entry each.
    ExpectedLayerMappings,
}

/// What went wrong, in words.
pub open spec fn reason(e: IndexError) -> Seq<char> {
    match e {
        IndexError::MemberNotFound => "member not found"@,
        IndexError::Unreadable => "member is not UTF-8 text"@,
        IndexError::Malformed => "parse error"@,
        IndexError::NotSingleDocument => "expected single document"@,
        IndexError::ExpectedSequence => "expected array of strings"@,
        IndexError::ExpectedLayerMappings => "expected array of layer mappings"@,
    }
}

/// The message for the error `e` on the index that the member `member`
/// holds: it names the member, then says what went wrong.
pub open spec fn message_of(e: IndexError, member: Seq<char>) -> Seq<char> {
    "index "@ + member + ": "@ + reason(e)
}

impl IndexError {
    /// The message for this error on the index that the member `member`
    /// holds.
    pub fn message(&self, member: &str) -> (text: String)
        ensures
            text@ == message_of(*self, member@),
    {
        let mut text = String::from_str("index ");
        text.append(member);
        text.append(": ");
        match self {
            IndexError::MemberNotFound => text.append("member not found"),
            IndexError::Unreadable => text.append("member is not UTF-8 text"),
            IndexError::Malformed => text.append("parse error"),
            IndexError::NotSingleDocument => text.append("expected single document"),
            IndexError::ExpectedSequence => text.append("expected array of strings"),
            IndexError::ExpectedLayerMappings => text.append("expected array of layer mappings"),
        }
        text
    }
}

/// `yaml_rust::Yaml`, a node of a parsed document, as an opaque type.
#[verifier::external_type_specification]
#[verifier::external_body]
pub struct ExYaml(yaml_rust::Yaml);

/// `yaml_rust::ScanError`, the error of the parser, as an opaque type.
#[verifier::external_type_specification]
#[verifier::external_body]
pub struct ExScanError(yaml_rust::ScanError);

/// The documents that `yaml_rust::YamlLoader::load_from_str` reads from
/// `text`, each as the tree that stands for it; `None` where it reports a
/// scan error.
pub uninterp spec fn yaml_documents(text: Seq<char>) -> Option<Seq<Tree>>;

/// The one document among `parsed`, where there is exactly one.
pub open spec fn document_of(parsed: Option<Seq<Tree>>) -> Result<Tree, IndexError> {
    match parsed {
        None => Err(IndexError::Malformed),
        Some(documents) => if documents.len() == 1 {
            Ok(documents[0])
        } else {
            Err(IndexError::NotSingleDocument)
        },
    }
}

/// Whether `r` is the outcome `expected`, up to the view of the node.
pub open spec fn is_document(r: Result<Node, IndexError>, expected: Result<Tree, IndexError>)
    -> bool {
    match r {
        Ok(node) => expected == Ok::<Tree, IndexError>(node@),
        Err(e) => expected == Err::<Tree, IndexError>(e),
    }
}

/// Calls `yaml_rust::YamlLoader::load_from_str` on `text`. The loader is a
/// function of the text alone: what it returns is `yaml_documents(text)`,
/// with each `Yaml` value turned into the `Node` of the same shape.
#[verifier::external_body]
fn parse_documents(text: &str) -> (r: Result<Vec<Node>, yaml_rust::ScanError>)
    ensures
        match r {
            Ok(documents) => yaml_documents(text@) == Some(trees(documents@)),
            Err(_) => yaml_documents(text@) is None,
        },
{
    yaml_rust::YamlLoader::load_from_str(text).map(|docs| docs.iter().map(node_of).collect())
}

/// Turns a `yaml_rust::Yaml` value into the `Node` of the same shape: a
/// string, an array and a hash keep what they hold, in its order; null stays
/// null; every other variant becomes `Node::Other`.
#[verifier::external_body]
fn node_of(yaml: &yaml_rust::Yaml) -> Node {
    match yaml {
        yaml_rust::Yaml::String(s) => Node::Text(s.clone()),
        yaml_rust::Yaml::Array(items) => Node::List(items.iter().map(node_of).collect()),
        yaml_rust::Yaml::Hash(entries) => Node::Table(
            entries.iter().map(|(k, v)| Entry { key: node_of(k), value: node_of(v) }).collect(),
        ),
        yaml_rust::Yaml::Null => Node::Null,
        yaml_rust::Yaml::Real(_)
        | yaml_rust::Yaml::Integer(_)
        | yaml_rust::Yaml::Boolean(_)
        | yaml_rust::Yaml::Alias(_)
        | yaml_rust::Yaml::BadValue => Node::Other,
    }
}

/// The one document among `documents`. Fails unless there is exactly one.
pub fn single_document(documents: Vec<Node>) -> (r: Result<Node, IndexError>)
    ensures
        is_document(r, document_of(Some(trees(documents@)))),
{
    let mut documents = documents;
    if documents.len() != 1 {
        return Err(IndexError::NotSingleDocument);
    }
    match documents.pop() {
        Some(node) => Ok(node),
        None => Err(IndexError::NotSingleDocument),
    }
}

/// Parses the text of an index member into the one tree that it holds.
/// Fails with `Malformed` where the text cannot be parsed, and with
/// `NotSingleDocument` where it holds no document or more than one.
pub fn load_document(text: &str) -> (r: Result<Node, IndexError>)
    ensures
        is_document(r, document_of(yaml_documents(text@))),
{
    match parse_documents(text) {
        Ok(documents) => single_document(documents),
        Err(_) => Err(IndexError::Malformed),
    }
}

} // verus!
