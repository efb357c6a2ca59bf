//! A parsed lock file, as a tree of tables, lists and scalar values.
//!
//! [`Node`] is the executable tree; [`DocValue`] is the mathematical value it
//! stands for, and every contract on documents is stated over the latter.

use vstd::prelude::*;
use crate::text::text_eq;

verus! {

/// The mathematical value of a document: what a [`Node`] stands for.
pub enum DocValue {
    /// The absent value.
    Null,
    /// A boolean.
    Bool(bool),
    /// Some number.
    Number,
    /// Some date or time.
    Datetime,
    /// A string, as its characters.
    Text(Seq<char>),
    /// A list, as the values of its items in order.
    List(Seq<DocValue>),
    /// A table, as its members in order: each a key and a value.
    Table(Seq<(Seq<char>, DocValue)>),
}

/// The value stored under `key` by the first of `members` that carries this key.
pub open spec fn lookup(members: Seq<(Seq<char>, DocValue)>, key: Seq<char>) -> Option<DocValue>
    decreases members.len(),
{
    if members.len() == 0 {
        None
    } else if members[0].0 == key {
        Some(members[0].1)
    } else {
        lookup(members.drop_first(), key)
    }
}

impl DocValue {
    /// The member called `key` of a table; `None` for a table without it and
    /// for every value that is no table.
    pub open spec fn member(self, key: Seq<char>) -> Option<DocValue> {
        match self {
            DocValue::Table(members) => lookup(members, key),
            _ => None,
        }
    }
}

/// One value of a parsed document.
#[derive(Debug, PartialEq, Eq)]
pub enum Node {
    /// The absent value (`null`).
    Null,
    /// A boolean.
    Bool(bool),
    /// A number; lock files are never read for one, so its digits are not kept.
    Number,
    /// A date or a time, likewise kept by kind only.
    Datetime,
    /// A string.
    Text(String),
    /// An ordered list of values.
    List(Vec<Node>),
    /// Keyed members, in the order in which the parser hands them out.
    Table(Vec<(String, Node)>),
}

/// The values that a sequence of nodes stands for, one by one.
pub open spec fn values_of(nodes: Seq<Node>) -> Seq<DocValue> {
    Seq::new(nodes.len(), |i: int| nodes[i]@)
}

/// The keyed values that a sequence of table members stands for, one by one.
pub open spec fn members_of(members: Seq<(String, Node)>) -> Seq<(Seq<char>, DocValue)> {
    Seq::new(members.len(), |i: int| (members[i].0@, members[i].1@))
}

/// The value that `node` stands for.
pub open spec fn value_of(node: Node) -> DocValue
    decreases node,
{
    match node {
        Node::Null => DocValue::Null,
        Node::Bool(b) => DocValue::Bool(b),
        Node::Number => DocValue::Number,
        Node::Datetime => DocValue::Datetime,
        Node::Text(s) => DocValue::Text(s@),
        Node::List(items) => DocValue::List(
            Seq::new(
                items@.len(),
                |i: int|
                    if 0 <= i < items@.len() {
                        value_of(items@[i])
                    } else {
                        DocValue::Null
                    },
            ),
        ),
        Node::Table(members) => DocValue::Table(
            Seq::new(
                members@.len(),
                |i: int|
                    if 0 <= i < members@.len() {
                        (members@[i].0@, value_of(members@[i].1))
                    } else {
                        (Seq::empty(), DocValue::Null)
                    },
            ),
        ),
    }
}

impl View for Node {
    type V = DocValue;

    open spec fn view(&self) -> DocValue {
        value_of(*self)
    }
}

/// A list node stands for the list of what its items stand for.
pub proof fn lemma_list_view(items: Vec<Node>)
    ensures
        Node::List(items)@ == DocValue::List(values_of(items@)),
{
    let direct = values_of(items@);
    assert(Node::List(items)@ matches DocValue::List(s) && s =~= direct);
}

/// A table node stands for the table of what its members stand for.
pub proof fn lemma_table_view(members: Vec<(String, Node)>)
    ensures
        Node::Table(members)@ == DocValue::Table(members_of(members@)),
{
    let direct = members_of(members@);
    assert(Node::Table(members)@ matches DocValue::Table(s) && s =~= direct);
}

/// Looking a key up from position `from` on: the members before it do not count.
proof fn lemma_lookup_skips(members: Seq<(Seq<char>, DocValue)>, key: Seq<char>, from: int)
    requires
        0 <= from <= members.len(),
        forall|k: int| 0 <= k < from ==> members[k].0 != key,
    ensures
        lookup(members, key) == lookup(members.skip(from), key),
    decreases from,
{
    if from == 0 {
        assert(members.skip(0) =~= members);
    } else {
        lemma_lookup_skips(members, key, from - 1);
        let rest = members.skip(from - 1);
        assert(rest[0] == members[from - 1]);
        assert(rest.drop_first() =~= members.skip(from));
    }
}

impl Node {
    /// The member called `key`, where this node is a table that has one.
    pub fn member(&self, key: &str) -> (found: Option<&Node>)
        ensures
            match found {
                Some(node) => self@.member(key@) == Some(node@),
                None => self@.member(key@) is None,
            },
    {
        match self {
            Node::Table(members) => {
                proof {
                    lemma_table_view(*members);
                }
                let ghost all = members_of(members@);
                let mut i: usize = 0;
                while i < members.len()
                    invariant
                        i <= members@.len(),
                        all == members_of(members@),
                        self@ == DocValue::Table(all),
                        forall|k: int| 0 <= k < i ==> all[k].0 != key@,
                    decreases members@.len() - i,
                {
                    if text_eq(members[i].0.as_str(), key) {
                        proof {
                            lemma_lookup_skips(all, key@, i as int);
                            assert(all.skip(i as int)[0] == all[i as int]);
                        }
                        return Some(&members[i].1);
                    }
                    i += 1;
                }
                proof {
                    lemma_lookup_skips(all, key@, i as int);
                    assert(all.skip(i as int).len() == 0);
                }
                None
            },
            _ => None,
        }
    }

    /// The characters of a string node.
    pub fn text(&self) -> (found: Option<&String>)
        ensures
            match found {
                Some(s) => self@ == DocValue::Text(s@),
                None => !(self@ is Text),
            },
    {
        match self {
            Node::Text(s) => Some(s),
            _ => None,
        }
    }

    /// The items of a list node.
    pub fn items(&self) -> (found: Option<&Vec<Node>>)
        ensures
            match found {
                Some(items) => self@ == DocValue::List(values_of(items@)),
                None => !(self@ is List),
            },
    {
        match self {
            Node::List(items) => {
                proof {
                    lemma_list_view(*items);
                }
                Some(items)
            },
            _ => None,
        }
    }

    /// The members of a table node.
    pub fn members(&self) -> (found: Option<&Vec<(String, Node)>>)
        ensures
            match found {
                Some(members) => self@ == DocValue::Table(members_of(members@)),
                None => !(self@ is Table),
            },
    {
        match self {
            Node::Table(members) => {
                proof {
                    lemma_table_view(*members);
                }
                Some(members)
            },
            _ => None,
        }
    }

    /// Whether this node is the absent value.
    pub fn is_null(&self) -> (null: bool)
        ensures
            null == (self@ is Null),
    {
        match self {
            Node::Null => true,
            _ => false,
        }
    }
}

} // verus!
