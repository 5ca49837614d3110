//! Structured documents (TOML and JSON) as the library reads and edits them:
//! strings, tables, arrays, integers and booleans are plain values; every
//! other value is carried as the parser gave it.
use vstd::prelude::*;

use crate::text::{chars_eq, chars_of, split_char, split_vec, string_of, views};

verus! {

/// A document value: a string, a table of named values (in order), an array
/// of values, an integer, a boolean, JSON's `null`, or any other (scalar)
/// value, carried opaquely.
#[verifier::reject_recursive_types(L)]
#[derive(Debug)]
pub enum Node<L> {
    Str(String),
    Table(Vec<(String, Node<L>)>),
    List(Vec<Node<L>>),
    Int(i64),
    Bool(bool),
    Null,
    Other(L),
}

/// A document value as plain values; other scalar values are not told apart.
pub enum NodeView {
    Str(Seq<char>),
    Table(Seq<(Seq<char>, NodeView)>),
    List(Seq<NodeView>),
    Int(i64),
    Bool(bool),
    Null,
    Other,
}

/// The plain values of a document value.
pub open spec fn node_view<L>(n: Node<L>) -> NodeView
    decreases n, 0nat,
{
    match n {
        Node::Str(s) => NodeView::Str(s@),
        Node::Table(es) => NodeView::Table(entries_view(es@)),
        Node::List(xs) => NodeView::List(items_view(xs@)),
        Node::Int(i) => NodeView::Int(i),
        Node::Bool(b) => NodeView::Bool(b),
        Node::Null => NodeView::Null,
        Node::Other(_) => NodeView::Other,
    }
}

/// The plain values of a table's entries.
pub open spec fn entries_view<L>(es: Seq<(String, Node<L>)>) -> Seq<(Seq<char>, NodeView)>
    decreases es, 1nat,
{
    if es.len() == 0 {
        seq![]
    } else {
        entries_view(es.drop_last()).push((es.last().0@, node_view(es.last().1)))
    }
}

/// The plain values of an array's items.
pub open spec fn items_view<L>(xs: Seq<Node<L>>) -> Seq<NodeView>
    decreases xs, 1nat,
{
    if xs.len() == 0 {
        seq![]
    } else {
        items_view(xs.drop_last()).push(node_view(xs.last()))
    }
}

/// The entries of a table as plain values, one by one.
pub proof fn lemma_entries_view<L>(es: Seq<(String, Node<L>)>)
    ensures
        entries_view(es).len() == es.len(),
        forall|i: int|
            0 <= i < es.len() ==> #[trigger] entries_view(es)[i] == (es[i].0@, node_view(es[i].1)),
    decreases es.len(),
{
    if es.len() > 0 {
        lemma_entries_view(es.drop_last());
    }
}

/// The index of the entry called `key`.
pub open spec fn entry_index(es: Seq<(Seq<char>, NodeView)>, key: Seq<char>) -> Option<int>
    decreases es.len(),
{
    if es.len() == 0 {
        None
    } else {
        match entry_index(es.drop_last(), key) {
            Some(i) => Some(i),
            None => if es.last().0 == key {
                Some(es.len() - 1)
            } else {
                None
            },
        }
    }
}

proof fn lemma_entry_index(es: Seq<(Seq<char>, NodeView)>, key: Seq<char>)
    ensures
        match entry_index(es, key) {
            Some(i) => 0 <= i < es.len() && es[i].0 == key && forall|j: int|
                0 <= j < i ==> es[j].0 != key,
            None => forall|j: int| 0 <= j < es.len() ==> es[j].0 != key,
        },
    decreases es.len(),
{
    if es.len() > 0 {
        lemma_entry_index(es.drop_last(), key);
        assert forall|j: int| 0 <= j < es.len() - 1 implies es[j] == es.drop_last()[j] by {}
    }
}

proof fn lemma_entry_index_is(es: Seq<(Seq<char>, NodeView)>, key: Seq<char>, i: int)
    requires
        0 <= i < es.len(),
        es[i].0 == key,
        forall|j: int| 0 <= j < i ==> es[j].0 != key,
    ensures
        entry_index(es, key) == Some(i),
    decreases es.len(),
{
    if i < es.len() - 1 {
        lemma_entry_index_is(es.drop_last(), key, i);
    } else {
        lemma_entry_index_none(es.drop_last(), key);
    }
}

proof fn lemma_entry_index_none(es: Seq<(Seq<char>, NodeView)>, key: Seq<char>)
    requires
        forall|j: int| 0 <= j < es.len() ==> es[j].0 != key,
    ensures
        entry_index(es, key) is None,
    decreases es.len(),
{
    if es.len() > 0 {
        lemma_entry_index_none(es.drop_last(), key);
    }
}

/// The value named `key` in a table; nothing in any other value.
pub open spec fn child(n: NodeView, key: Seq<char>) -> Option<NodeView> {
    match n {
        NodeView::Table(es) => match entry_index(es, key) {
            Some(i) => Some(es[i].1),
            None => None,
        },
        _ => None,
    }
}

/// The value reached from `n` by naming each part of `path` in turn.
pub open spec fn at_path(n: NodeView, path: Seq<Seq<char>>) -> Option<NodeView>
    decreases path.len(),
{
    if path.len() == 0 {
        Some(n)
    } else {
        match child(n, path[0]) {
            Some(c) => at_path(c, path.drop_first()),
            None => None,
        }
    }
}

/// The string a value holds, if it is a string.
pub open spec fn as_text(n: Option<NodeView>) -> Option<Seq<char>> {
    match n {
        Some(NodeView::Str(s)) => Some(s),
        _ => None,
    }
}

/// The parts of a dotted path such as `tool.poetry.version`.
pub open spec fn path_parts(path: Seq<char>) -> Seq<Seq<char>> {
    split_char(path, '.')
}

/// The string at a path, if there is a string there.
pub open spec fn text_at(n: NodeView, path: Seq<Seq<char>>) -> Option<Seq<char>> {
    as_text(at_path(n, path))
}

impl<L> Node<L> {
    /// The value named `key` in this table; nothing in any other value.
    pub fn get(&self, key: &Vec<char>) -> (r: Option<&Node<L>>)
        ensures
            match r {
                Some(c) => child(node_view(*self), key@) == Some(node_view(*c)),
                None => child(node_view(*self), key@) is None,
            },
    {
        match self {
            Node::Table(es) => {
                proof {
                    lemma_entries_view(es@);
                }
                assert(node_view(*self) == NodeView::Table(entries_view(es@)));
                for i in 0..es.len()
                    invariant
                        node_view(*self) == NodeView::Table(entries_view(es@)),
                        entries_view(es@).len() == es.len(),
                        forall|k: int|
                            0 <= k < es.len() ==> #[trigger] entries_view(es@)[k] == (
                                es@[k].0@,
                                node_view(es@[k].1),
                            ),
                        forall|j: int| 0 <= j < i ==> entries_view(es@)[j].0 != key@,
                {
                    let k = chars_of(es[i].0.as_str());
                    if chars_eq(&k, key) {
                        proof {
                            lemma_entry_index_is(entries_view(es@), key@, i as int);
                            assert(entries_view(es@)[i as int] == (es@[i as int].0@, node_view(es@[i as int].1)));

                        }
                        return Some(&es[i].1);
                    }
                }
                proof {
                    lemma_entry_index_none(entries_view(es@), key@);
                }
                None
            },
            _ => None,
        }
    }

    /// The value reached by naming each part of `path` in turn.
    pub fn get_path(&self, path: &Vec<Vec<char>>) -> (r: Option<&Node<L>>)
        ensures
            match r {
                Some(c) => at_path(node_view(*self), views(path@)) == Some(node_view(*c)),
                None => at_path(node_view(*self), views(path@)) is None,
            },
    {
        let mut cur: &Node<L> = self;
        assert(views(path@).skip(0) =~= views(path@));
        for i in 0..path.len()
            invariant
                at_path(node_view(*self), views(path@)) == at_path(
                    node_view(*cur),
                    views(path@).skip(i as int),
                ),
        {
            assert(views(path@).skip(i as int)[0] == path@[i as int]@);
            assert(views(path@).skip(i as int).drop_first() =~= views(path@).skip(i + 1));
            match cur.get(&path[i]) {
                Some(c) => {
                    cur = c;
                },
                None => {
                    return None;
                },
            }
        }
        assert(views(path@).skip(path.len() as int) =~= Seq::<Seq<char>>::empty());
        Some(cur)
    }

    /// The string held at `path`, if a string is there.
    pub fn text_at(&self, path: &Vec<Vec<char>>) -> (r: Option<String>)
        ensures
            match r {
                Some(s) => text_at(node_view(*self), views(path@)) == Some(s@),
                None => text_at(node_view(*self), views(path@)) is None,
            },
    {
        match self.get_path(path) {
            Some(Node::Str(s)) => Some(s.clone()),
            _ => None,
        }
    }
}

/// The parts of a dotted path.
pub fn split_path(path: &str) -> (r: Vec<Vec<char>>)
    ensures
        views(r@) == path_parts(path@),
{
    let v = chars_of(path);
    split_vec(&v, '.')
}

/// The parts of a dotted path given literally.
pub fn path_of(parts: &[&str]) -> (r: Vec<Vec<char>>)
    ensures
        r@.len() == parts@.len(),
        forall|i: int| 0 <= i < parts@.len() ==> #[trigger] r@[i]@ == parts@[i]@,
{
    let mut r: Vec<Vec<char>> = Vec::new();
    for i in 0..parts.len()
        invariant
            r@.len() == i,
            forall|k: int| 0 <= k < i ==> #[trigger] r@[k]@ == parts@[k]@,
    {
        r.push(chars_of(parts[i]));
    }
    r
}

// ---------------------------------------------------------------------------
// Editing
// ---------------------------------------------------------------------------

/// Why a value could not be set at a path, as plain values.
pub enum SetFailure {
    NotFound(Seq<char>),
    NotTable,
}

/// Why a value could not be set at a path.
#[derive(Debug, PartialEq, Eq)]
pub enum SetError {
    /// A part of the path before the last names nothing.
    NotFound(String),
    /// The value that should hold the last part is not a table.
    NotTable,
}

impl SetError {
    /// This error as plain values.
    pub open spec fn failure(&self) -> SetFailure {
        match self {
            SetError::NotFound(s) => SetFailure::NotFound(s@),
            SetError::NotTable => SetFailure::NotTable,
        }
    }
}

/// `es` with `key` set to `v`: in place when the key is there, else at the end.
pub open spec fn insert_entry(es: Seq<(Seq<char>, NodeView)>, key: Seq<char>, v: NodeView) -> Seq<
    (Seq<char>, NodeView),
> {
    match entry_index(es, key) {
        Some(i) => es.update(i, (key, v)),
        None => es.push((key, v)),
    }
}

/// `n` with the value at `path` set to `v`: every part but the last must name
/// a value, and the last is set in the table reached.
pub open spec fn set_at(n: NodeView, path: Seq<Seq<char>>, v: NodeView) -> Result<
    NodeView,
    SetFailure,
>
    decreases path.len(),
{
    if path.len() == 0 {
        Ok(v)
    } else if path.len() == 1 {
        match n {
            NodeView::Table(es) => Ok(NodeView::Table(insert_entry(es, path[0], v))),
            _ => Err(SetFailure::NotTable),
        }
    } else {
        match n {
            NodeView::Table(es) => match entry_index(es, path[0]) {
                Some(i) => match set_at(es[i].1, path.drop_first(), v) {
                    Ok(c) => Ok(NodeView::Table(es.update(i, (path[0], c)))),
                    Err(e) => Err(e),
                },
                None => Err(SetFailure::NotFound(path[0])),
            },
            _ => Err(SetFailure::NotFound(path[0])),
        }
    }
}

proof fn lemma_entries_view_update<L>(es: Seq<(String, Node<L>)>, i: int, x: (String, Node<L>))
    requires
        0 <= i < es.len(),
    ensures
        entries_view(es.update(i, x)) == entries_view(es).update(i, (x.0@, node_view(x.1))),
{
    lemma_entries_view(es);
    lemma_entries_view(es.update(i, x));
    assert(entries_view(es.update(i, x)) =~= entries_view(es).update(i, (x.0@, node_view(x.1))));
}

proof fn lemma_entries_view_push<L>(es: Seq<(String, Node<L>)>, x: (String, Node<L>))
    ensures
        entries_view(es.push(x)) == entries_view(es).push((x.0@, node_view(x.1))),
{
    assert(es.push(x).drop_last() =~= es);
}

fn find_entry<L>(es: &Vec<(String, Node<L>)>, key: &Vec<char>) -> (r: Option<usize>)
    ensures
        match r {
            Some(i) => entry_index(entries_view(es@), key@) == Some(i as int),
            None => entry_index(entries_view(es@), key@) is None,
        },
{
    proof {
        lemma_entries_view(es@);
    }
    for i in 0..es.len()
        invariant
            entries_view(es@).len() == es.len(),
            forall|k: int|
                0 <= k < es.len() ==> #[trigger] entries_view(es@)[k] == (
                    es@[k].0@,
                    node_view(es@[k].1),
                ),
            forall|j: int| 0 <= j < i ==> entries_view(es@)[j].0 != key@,
    {
        let k = chars_of(es[i].0.as_str());
        if chars_eq(&k, key) {
            proof {
                lemma_entry_index_is(entries_view(es@), key@, i as int);
            }
            return Some(i);
        }
    }
    proof {
        lemma_entry_index_none(entries_view(es@), key@);
    }
    None
}

/// Sets `key` to `v` in a table's entries.
pub fn insert_into<L>(es: Vec<(String, Node<L>)>, key: &Vec<char>, v: Node<L>) -> (r: Vec<
    (String, Node<L>),
>)
    ensures
        entries_view(r@) == insert_entry(entries_view(es@), key@, node_view(v)),
{
    let mut es = es;
    let ghost orig = es@;
    match find_entry(&es, key) {
        Some(i) => {
            proof {
                lemma_entry_index(entries_view(es@), key@);
                lemma_entries_view(es@);
            }
            let (k, _old) = es.remove(i);
            let ghost entry = (k, v);
            es.insert(i, (k, v));
            proof {
                assert(es@ =~= orig.update(i as int, entry));
                lemma_entries_view_update(orig, i as int, entry);
            }
            es
        },
        None => {
            let ks = string_of(key);
            let ghost entry = (ks, v);
            es.push((ks, v));
            proof {
                lemma_entries_view_push(orig, entry);
            }
            es
        },
    }
}

/// Sets the value at the parts `path[from..]` of a document to `v`: every
/// part but the last must name a value, and the last is set in the table that
/// the others reach.
pub fn set_path<L>(n: Node<L>, path: &Vec<Vec<char>>, from: usize, v: Node<L>) -> (r: Result<
    Node<L>,
    SetError,
>)
    requires
        from <= path.len(),
    ensures
        match set_at(node_view(n), views(path@).skip(from as int), node_view(v)) {
            Ok(m) => r matches Ok(x) && node_view(x) == m,
            Err(f) => r matches Err(e) && e.failure() == f,
        },
    decreases path.len() - from,
{
    let ghost p = views(path@).skip(from as int);
    if from == path.len() {
        assert(p.len() == 0);
        return Ok(v);
    }
    assert(p[0] == path@[from as int]@);
    if from + 1 == path.len() {
        match n {
            Node::Table(es) => {
                let es2 = insert_into(es, &path[from], v);
                Ok(Node::Table(es2))
            },
            _ => Err(SetError::NotTable),
        }
    } else {
        assert(p.drop_first() =~= views(path@).skip(from + 1));
        match n {
            Node::Table(es) => {
                let mut es = es;
                let ghost orig = es@;
                match find_entry(&es, &path[from]) {
                    Some(i) => {
                        proof {
                            lemma_entry_index(entries_view(es@), path@[from as int]@);
                            lemma_entries_view(es@);
                        }
                        let (k, c) = es.remove(i);
                        assert(node_view(c) == entries_view(orig)[i as int].1);
                        match set_path(c, path, from + 1, v) {
                            Ok(c2) => {
                                let ghost entry = (k, c2);
                                es.insert(i, (k, c2));
                                proof {
                                    assert(es@ =~= orig.update(i as int, entry));
                                    lemma_entries_view_update(orig, i as int, entry);
                                }
                                Ok(Node::Table(es))
                            },
                            Err(e) => Err(e),
                        }
                    },
                    None => Err(SetError::NotFound(string_of(&path[from]))),
                }
            },
            _ => Err(SetError::NotFound(string_of(&path[from]))),
        }
    }
}

proof fn lemma_entry_index_update(es: Seq<(Seq<char>, NodeView)>, k: Seq<char>, i: int, x: NodeView)
    requires
        entry_index(es, k) == Some(i),
    ensures
        entry_index(es.update(i, (k, x)), k) == Some(i),
{
    lemma_entry_index(es, k);
    let es2 = es.update(i, (k, x));
    assert forall|j: int| 0 <= j < i implies es2[j].0 != k by {
        assert(es2[j] == es[j]);
    }
    lemma_entry_index_is(es2, k, i);
}

proof fn lemma_entry_index_push(es: Seq<(Seq<char>, NodeView)>, k: Seq<char>, x: NodeView)
    requires
        entry_index(es, k) is None,
    ensures
        entry_index(es.push((k, x)), k) == Some(es.len() as int),
{
    lemma_entry_index(es, k);
    let es2 = es.push((k, x));
    assert forall|j: int| 0 <= j < es.len() implies es2[j].0 != k by {
        assert(es2[j] == es[j]);
    }
    lemma_entry_index_is(es2, k, es.len() as int);
}

/// After `k` is set to `x` in a table's entries, `k` names `x`.
pub proof fn lemma_insert_entry_then_read(es: Seq<(Seq<char>, NodeView)>, k: Seq<char>, x: NodeView)
    ensures
        child(NodeView::Table(insert_entry(es, k, x)), k) == Some(x),
{
    match entry_index(es, k) {
        Some(i) => {
            lemma_entry_index(es, k);
            lemma_entry_index_update(es, k, i, x);
        },
        None => {
            lemma_entry_index_push(es, k, x);
        },
    }
}

/// Reading a document at a path after a value was set there gives back that
/// value.
pub proof fn law_set_then_read(d: NodeView, path: Seq<Seq<char>>, v: NodeView)
    requires
        path.len() >= 1,
    ensures
        set_at(d, path, v) matches Ok(m) ==> at_path(m, path) == Some(v),
    decreases path.len(),
{
    if path.len() == 1 {
        match d {
            NodeView::Table(es) => {
                lemma_insert_entry_then_read(es, path[0], v);
                let m = NodeView::Table(insert_entry(es, path[0], v));
                assert(set_at(d, path, v) == Ok::<NodeView, SetFailure>(m));
                assert(child(m, path[0]) == Some(v));
                assert(path.drop_first().len() == 0);
                assert(at_path(v, path.drop_first()) == Some(v));
                assert(at_path(m, path) == Some(v));
            },
            _ => {},
        }
    } else {
        match d {
            NodeView::Table(es) => match entry_index(es, path[0]) {
                Some(i) => {
                    lemma_entry_index(es, path[0]);
                    law_set_then_read(es[i].1, path.drop_first(), v);
                    match set_at(es[i].1, path.drop_first(), v) {
                        Ok(c) => {
                            lemma_entry_index_update(es, path[0], i, c);
                            let es2 = es.update(i, (path[0], c));
                            let m = NodeView::Table(es2);
                            assert(es2[i].1 == c);
                            assert(child(m, path[0]) == Some(c));
                            assert(at_path(m, path) == at_path(c, path.drop_first()));
                        },
                        Err(_) => {},
                    }
                },
                None => {},
            },
            _ => {},
        }
    }
}

// ---------------------------------------------------------------------------
// What an edit keeps
// ---------------------------------------------------------------------------

/// What is found at a path, with strings, integers and booleans told apart by
/// their values and every other value by its kind only.
pub enum Shape {
    Absent,
    Text(Seq<char>),
    Table,
    List,
    Int(i64),
    Bool(bool),
    Null,
    Other,
}

/// The shape of what is found.
pub open spec fn shape(o: Option<NodeView>) -> Shape {
    match o {
        None => Shape::Absent,
        Some(NodeView::Str(s)) => Shape::Text(s),
        Some(NodeView::Table(_)) => Shape::Table,
        Some(NodeView::List(_)) => Shape::List,
        Some(NodeView::Int(i)) => Shape::Int(i),
        Some(NodeView::Bool(b)) => Shape::Bool(b),
        Some(NodeView::Null) => Shape::Null,
        Some(NodeView::Other) => Shape::Other,
    }
}

/// Two documents hold the same strings, tables and other kinds at every path.
pub open spec fn same_shapes(a: NodeView, b: NodeView) -> bool {
    forall|q: Seq<Seq<char>>| #[trigger] shape(at_path(a, q)) == shape(at_path(b, q))
}

/// Two documents are alike: the same strings, integers, booleans, `null`s and
/// other kinds, arrays
/// of alike items in the same order, and tables with the same keys whose
/// values are alike, whatever the order of their entries.
pub open spec fn alike(a: NodeView, b: NodeView) -> bool
    decreases a, 0nat,
{
    match a {
        NodeView::Str(x) => b == NodeView::Str(x),
        NodeView::Int(i) => b == NodeView::Int(i),
        NodeView::Bool(x) => b == NodeView::Bool(x),
        NodeView::Null => b is Null,
        NodeView::Other => b is Other,
        NodeView::Table(es) => match b {
            NodeView::Table(fs) => entries_alike(es, fs) && keys_within(fs, es),
            _ => false,
        },
        NodeView::List(xs) => match b {
            NodeView::List(ys) => items_alike(xs, ys),
            _ => false,
        },
    }
}

/// Every entry of `es` has an entry of the same key in `fs`, with an alike value.
pub open spec fn entries_alike(es: Seq<(Seq<char>, NodeView)>, fs: Seq<(Seq<char>, NodeView)>) -> bool
    decreases es, 1nat,
{
    if es.len() == 0 {
        true
    } else {
        entries_alike(es.drop_last(), fs) && match entry_index(fs, es.last().0) {
            Some(j) => alike(es.last().1, fs[j].1),
            None => false,
        }
    }
}

/// Two arrays have alike items, one by one.
pub open spec fn items_alike(xs: Seq<NodeView>, ys: Seq<NodeView>) -> bool
    decreases xs, 1nat,
{
    if xs.len() == 0 {
        ys.len() == 0
    } else {
        ys.len() == xs.len() && items_alike(xs.drop_last(), ys.drop_last()) && alike(
            xs.last(),
            ys.last(),
        )
    }
}

/// Every key of `fs` is a key of `es`.
pub open spec fn keys_within(fs: Seq<(Seq<char>, NodeView)>, es: Seq<(Seq<char>, NodeView)>) -> bool {
    forall|j: int| 0 <= j < fs.len() ==> #[trigger] entry_index(es, fs[j].0) is Some
}

proof fn lemma_entries_alike(es: Seq<(Seq<char>, NodeView)>, fs: Seq<(Seq<char>, NodeView)>)
    requires
        entries_alike(es, fs),
    ensures
        forall|i: int|
            0 <= i < es.len() ==> (entry_index(fs, #[trigger] es[i].0) matches Some(j) && alike(
                es[i].1,
                fs[j].1,
            )),
    decreases es.len(),
{
    if es.len() > 0 {
        lemma_entries_alike(es.drop_last(), fs);
        assert forall|i: int| 0 <= i < es.len() implies (entry_index(fs, #[trigger] es[i].0) matches Some(j) && alike(
            es[i].1,
            fs[j].1,
        )) by {
            if i < es.len() - 1 {
                assert(es[i] == es.drop_last()[i]);
            }
        }
    }
}

/// Alike documents find alike values, or none, at every path.
pub proof fn lemma_alike_at(a: NodeView, b: NodeView, q: Seq<Seq<char>>)
    requires
        alike(a, b),
    ensures
        at_path(a, q) is Some <==> at_path(b, q) is Some,
        at_path(a, q) matches Some(x) ==> alike(x, at_path(b, q)->0),
        shape(at_path(a, q)) == shape(at_path(b, q)),
    decreases q.len(),
{
    if q.len() == 0 {
        assert(at_path(a, q) == Some(a));
        assert(at_path(b, q) == Some(b));
    } else {
        let k = q[0];
        match a {
            NodeView::Table(es) => {
                let fs = b->Table_0;
                lemma_entry_index(es, k);
                lemma_entry_index(fs, k);
                match entry_index(es, k) {
                    Some(i) => {
                        lemma_entries_alike(es, fs);
                        let j = entry_index(fs, k)->0;
                        assert(child(a, k) == Some(es[i].1));
                        assert(child(b, k) == Some(fs[j].1));
                        lemma_alike_at(es[i].1, fs[j].1, q.drop_first());
                    },
                    None => {
                        if entry_index(fs, k) is Some {
                            let j = entry_index(fs, k)->0;
                            assert(entry_index(es, fs[j].0) is Some);
                        }
                        assert(child(b, k) is None);
                    },
                }
            },
            _ => {
                assert(child(a, k) is None);
                assert(child(b, k) is None);
            },
        }
    }
}

/// Alike documents have the same shapes.
pub proof fn lemma_alike_shapes(a: NodeView, b: NodeView)
    requires
        alike(a, b),
    ensures
        same_shapes(a, b),
{
    assert forall|q: Seq<Seq<char>>| #[trigger] shape(at_path(a, q)) == shape(at_path(b, q)) by {
        lemma_alike_at(a, b, q);
    }
}

/// Path `q` starts with path `p` (is `p` or lies below it).
pub open spec fn starts_path(q: Seq<Seq<char>>, p: Seq<Seq<char>>) -> bool {
    p.len() <= q.len() && q.take(p.len() as int) == p
}

/// No two entries of a table share a key.
pub open spec fn keys_distinct(es: Seq<(Seq<char>, NodeView)>) -> bool {
    forall|i: int, j: int| 0 <= i < j < es.len() ==> es[i].0 != es[j].0
}

/// Every table of a document has distinct keys, as a parsed map's do.
pub open spec fn distinct_tables(n: NodeView) -> bool {
    forall|q: Seq<Seq<char>>|
        #[trigger] at_path(n, q) matches Some(NodeView::Table(es)) ==> keys_distinct(es)
}

/// No table of a document has an entry called `k`.
pub open spec fn without_key(n: NodeView, k: Seq<char>) -> bool {
    forall|q: Seq<Seq<char>>|
        #[trigger] at_path(n, q) matches Some(NodeView::Table(es)) ==> entry_index(es, k) is None
}

/// The value, with the values it holds, fits within `k` levels (a string or
/// another scalar takes one level, a table or an array one more than the
/// deepest value it holds), and holds no `null` unless `nulls`.
pub open spec fn fits_within(n: NodeView, k: nat, nulls: bool) -> bool
    decreases k, 0nat,
{
    if k == 0 {
        false
    } else {
        match n {
            NodeView::Null => nulls,
            NodeView::Table(es) => entries_fit(es, (k - 1) as nat, nulls),
            NodeView::List(xs) => items_fit(xs, (k - 1) as nat, nulls),
            _ => true,
        }
    }
}

/// Every entry's value fits within `k` levels.
pub open spec fn entries_fit(es: Seq<(Seq<char>, NodeView)>, k: nat, nulls: bool) -> bool
    decreases k, es.len() + 1,
{
    if es.len() == 0 {
        true
    } else {
        entries_fit(es.drop_last(), k, nulls) && fits_within(es.last().1, k, nulls)
    }
}

/// Every item fits within `k` levels.
pub open spec fn items_fit(xs: Seq<NodeView>, k: nat, nulls: bool) -> bool
    decreases k, xs.len() + 1,
{
    if xs.len() == 0 {
        true
    } else {
        items_fit(xs.drop_last(), k, nulls) && fits_within(xs.last(), k, nulls)
    }
}

/// The value fits within `k` levels.
pub open spec fn nested_within(n: NodeView, k: nat) -> bool {
    fits_within(n, k, true)
}

/// The value fits within `k` levels and holds no `null`.
pub open spec fn plain_within(n: NodeView, k: nat) -> bool {
    fits_within(n, k, false)
}

/// Entries fit exactly when each of their values does.
pub proof fn lemma_entries_fit(es: Seq<(Seq<char>, NodeView)>, k: nat, nulls: bool)
    ensures
        entries_fit(es, k, nulls) == forall|i: int|
            0 <= i < es.len() ==> fits_within(#[trigger] es[i].1, k, nulls),
    decreases es.len(),
{
    if es.len() > 0 {
        lemma_entries_fit(es.drop_last(), k, nulls);
        assert forall|i: int| 0 <= i < es.len() - 1 implies es.drop_last()[i] == es[i] by {}
        if entries_fit(es, k, nulls) {
            assert forall|i: int| 0 <= i < es.len() implies fits_within(#[trigger] es[i].1, k, nulls) by {
                if i < es.len() - 1 {
                    assert(fits_within(es.drop_last()[i].1, k, nulls));
                }
            }
        }
        if forall|i: int| 0 <= i < es.len() ==> fits_within(#[trigger] es[i].1, k, nulls) {
            assert(fits_within(es[es.len() - 1].1, k, nulls));
            assert forall|i: int| 0 <= i < es.drop_last().len() implies fits_within(
                #[trigger] es.drop_last()[i].1,
                k,
                nulls,
            ) by {
                assert(fits_within(es[i].1, k, nulls));
            }
        }
    }
}

/// Items fit exactly when each of them does.
pub proof fn lemma_items_fit(xs: Seq<NodeView>, k: nat, nulls: bool)
    ensures
        items_fit(xs, k, nulls) == forall|i: int|
            0 <= i < xs.len() ==> fits_within(#[trigger] xs[i], k, nulls),
    decreases xs.len(),
{
    if xs.len() > 0 {
        lemma_items_fit(xs.drop_last(), k, nulls);
        assert forall|i: int| 0 <= i < xs.len() - 1 implies xs.drop_last()[i] == xs[i] by {}
        if items_fit(xs, k, nulls) {
            assert forall|i: int| 0 <= i < xs.len() implies fits_within(#[trigger] xs[i], k, nulls) by {
                if i < xs.len() - 1 {
                    assert(fits_within(xs.drop_last()[i], k, nulls));
                }
            }
        }
        if forall|i: int| 0 <= i < xs.len() ==> fits_within(#[trigger] xs[i], k, nulls) {
            assert(fits_within(xs[xs.len() - 1], k, nulls));
            assert forall|i: int| 0 <= i < xs.drop_last().len() implies fits_within(
                #[trigger] xs.drop_last()[i],
                k,
                nulls,
            ) by {
                assert(fits_within(xs[i], k, nulls));
            }
        }
    }
}

/// A value within `k` levels is within any more levels too.
pub proof fn lemma_fits_more(n: NodeView, k: nat, nulls: bool)
    requires
        fits_within(n, k, nulls),
    ensures
        fits_within(n, k + 1, nulls),
    decreases k,
{
    match n {
        NodeView::Table(es) => {
            lemma_entries_fit(es, (k - 1) as nat, nulls);
            lemma_entries_fit(es, k, nulls);
            assert forall|i: int| 0 <= i < es.len() implies fits_within(#[trigger] es[i].1, k, nulls) by {
                lemma_fits_more(es[i].1, (k - 1) as nat, nulls);
            }
        },
        NodeView::List(xs) => {
            lemma_items_fit(xs, (k - 1) as nat, nulls);
            lemma_items_fit(xs, k, nulls);
            assert forall|i: int| 0 <= i < xs.len() implies fits_within(#[trigger] xs[i], k, nulls) by {
                lemma_fits_more(xs[i], (k - 1) as nat, nulls);
            }
        },
        _ => {},
    }
}

/// How many levels a document may take for it to be read back: below the
/// nesting limits of the parsers (80 in `toml`, 128 in `serde_json`).
pub open spec fn read_back_depth() -> nat {
    64
}

/// The key by which `toml` marks a table that stands for a date-time.
pub open spec fn toml_marker() -> Seq<char> {
    "$__toml_private_datetime"@
}

/// A path through a table's child.
pub proof fn lemma_at_path_cons(n: NodeView, k: Seq<char>, q: Seq<Seq<char>>)
    ensures
        at_path(n, seq![k] + q) == match child(n, k) {
            Some(c) => at_path(c, q),
            None => None,
        },
{
    assert((seq![k] + q)[0] == k);
    assert((seq![k] + q).drop_first() =~= q);
}

/// Updating an entry without changing its key finds every key where it was.
proof fn lemma_update_keeps_index(es: Seq<(Seq<char>, NodeView)>, i: int, x: (Seq<char>, NodeView), key: Seq<char>)
    requires
        0 <= i < es.len(),
        x.0 == es[i].0,
    ensures
        entry_index(es.update(i, x), key) == entry_index(es, key),
{
    let es2 = es.update(i, x);
    lemma_entry_index(es, key);
    match entry_index(es, key) {
        Some(j) => {
            assert forall|l: int| 0 <= l < j implies es2[l].0 != key by {}
            lemma_entry_index_is(es2, key, j);
        },
        None => {
            lemma_entry_index_none(es2, key);
        },
    }
}

/// Setting `k` leaves what every other key names.
proof fn lemma_insert_entry_other(es: Seq<(Seq<char>, NodeView)>, k: Seq<char>, w: NodeView, k2: Seq<char>)
    requires
        k2 != k,
    ensures
        child(NodeView::Table(insert_entry(es, k, w)), k2) == child(NodeView::Table(es), k2),
        entry_index(insert_entry(es, k, w), k2) == entry_index(es, k2),
{
    lemma_entry_index(es, k);
    lemma_entry_index(es, k2);
    match entry_index(es, k) {
        Some(i) => {
            lemma_update_keeps_index(es, i, (k, w), k2);
        },
        None => {
            let es2 = es.push((k, w));
            assert(es2.drop_last() =~= es);
        },
    }
}

/// Setting `k` keeps a table's keys distinct.
proof fn lemma_insert_entry_distinct(es: Seq<(Seq<char>, NodeView)>, k: Seq<char>, w: NodeView)
    requires
        keys_distinct(es),
    ensures
        keys_distinct(insert_entry(es, k, w)),
{
    lemma_entry_index(es, k);
}

/// What setting a string at a path keeps: every path that does not start with
/// it finds the same shape as before, and the tables keep distinct keys and
/// stay without a key that the path does not name.
pub proof fn lemma_set_keeps(d: NodeView, p: Seq<Seq<char>>, w: Seq<char>, k0: Seq<char>)
    requires
        p.len() >= 1,
        set_at(d, p, NodeView::Str(w)) is Ok,
    ensures
        forall|q: Seq<Seq<char>>|
            !starts_path(q, p) ==> #[trigger] shape(at_path(set_at(d, p, NodeView::Str(w))->Ok_0, q))
                == shape(at_path(d, q)),
        distinct_tables(d) ==> distinct_tables(set_at(d, p, NodeView::Str(w))->Ok_0),
        without_key(d, k0) && !p.contains(k0) ==> without_key(
            set_at(d, p, NodeView::Str(w))->Ok_0,
            k0,
        ),
    decreases p.len(),
{
    let v = NodeView::Str(w);
    let m = set_at(d, p, v)->Ok_0;
    let es = d->Table_0;
    assert(d is Table);
    assert(at_path(d, seq![]) == Some(d));
    assert(at_path(m, seq![]) == Some(m));
    if p.len() == 1 {
        let es2 = insert_entry(es, p[0], v);
        assert(m == NodeView::Table(es2));
        assert forall|q: Seq<Seq<char>>| !starts_path(q, p) implies #[trigger] shape(at_path(m, q))
            == shape(at_path(d, q)) by {
            if q.len() > 0 {
                if q[0] == p[0] {
                    assert(q.take(1) =~= p);
                } else {
                    lemma_insert_entry_other(es, p[0], v, q[0]);
                }
            }
        }
        if distinct_tables(d) {
            assert forall|q: Seq<Seq<char>>| (#[trigger] at_path(m, q) matches Some(NodeView::Table(t)) ==> keys_distinct(t)) by {
                if q.len() == 0 {
                    assert(at_path(d, q) == Some(d));
                    assert(at_path(m, q) == Some(m));
                    lemma_insert_entry_distinct(es, p[0], v);
                } else if q[0] == p[0] {
                    lemma_insert_entry_then_read(es, p[0], v);
                    assert(child(m, q[0]) == Some(v));
                    assert(at_path(m, q) == at_path(v, q.drop_first()));
                    if q.len() > 1 {
                        assert(child(v, q.drop_first()[0]) is None);
                    } else {
                        assert(q.drop_first().len() == 0);
                    }
                } else {
                    lemma_insert_entry_other(es, p[0], v, q[0]);
                    assert(at_path(m, q) == at_path(d, q));
                }
            }
        }
        if without_key(d, k0) && !p.contains(k0) {
            assert(p[0] != k0);
            assert forall|q: Seq<Seq<char>>| (#[trigger] at_path(m, q) matches Some(NodeView::Table(t)) ==> entry_index(t, k0) is None) by {
                if q.len() == 0 {
                    assert(at_path(d, q) == Some(d));
                    assert(at_path(m, q) == Some(m));
                    lemma_insert_entry_other(es, p[0], v, k0);
                } else if q[0] == p[0] {
                    lemma_insert_entry_then_read(es, p[0], v);
                    assert(child(m, q[0]) == Some(v));
                    assert(at_path(m, q) == at_path(v, q.drop_first()));
                    if q.len() > 1 {
                        assert(child(v, q.drop_first()[0]) is None);
                    } else {
                        assert(q.drop_first().len() == 0);
                    }
                } else {
                    lemma_insert_entry_other(es, p[0], v, q[0]);
                    assert(at_path(m, q) == at_path(d, q));
                }
            }
        }
    } else {
        let i = entry_index(es, p[0])->0;
        lemma_entry_index(es, p[0]);
        let c = es[i].1;
        let pr = p.drop_first();
        lemma_set_keeps(c, pr, w, k0);
        let c2 = set_at(c, pr, v)->Ok_0;
        let es2 = es.update(i, (p[0], c2));
        assert(m == NodeView::Table(es2));
        assert forall|k2: Seq<char>| k2 != p[0] implies #[trigger] child(m, k2) == child(d, k2) by {
            lemma_update_keeps_index(es, i, (p[0], c2), k2);
            lemma_entry_index(es, k2);
        }
        lemma_update_keeps_index(es, i, (p[0], c2), p[0]);
        assert(child(m, p[0]) == Some(c2));
        assert(child(d, p[0]) == Some(c));
        assert forall|q: Seq<Seq<char>>| !starts_path(q, p) implies #[trigger] shape(at_path(m, q))
            == shape(at_path(d, q)) by {
            if q.len() > 0 {
                if q[0] == p[0] {
                    let qr = q.drop_first();
                    if starts_path(qr, pr) {
                        assert(q.take(p.len() as int) =~= seq![p[0]] + qr.take(pr.len() as int));
                        assert(p =~= seq![p[0]] + pr);
                    }
                    assert(shape(at_path(c2, qr)) == shape(at_path(c, qr)));
                } else {
                    assert(child(m, q[0]) == child(d, q[0]));
                }
            }
        }
        if distinct_tables(d) {
            assert forall|q2: Seq<Seq<char>>| (#[trigger] at_path(c, q2) matches Some(NodeView::Table(t)) ==> keys_distinct(t)) by {
                lemma_at_path_cons(d, p[0], q2);
                assert(at_path(d, seq![p[0]] + q2) == at_path(c, q2));
            }
            assert(distinct_tables(c));
            assert forall|q: Seq<Seq<char>>| (#[trigger] at_path(m, q) matches Some(NodeView::Table(t)) ==> keys_distinct(t)) by {
                if q.len() == 0 {
                    assert(at_path(d, q) == Some(d));
                    assert forall|a: int, b: int| 0 <= a < b < es2.len() implies es2[a].0
                        != es2[b].0 by {
                        assert(es2[a].0 == es[a].0 && es2[b].0 == es[b].0);
                    }
                } else if q[0] == p[0] {
                    assert(at_path(m, q) == at_path(c2, q.drop_first()));
                } else {
                    assert(child(m, q[0]) == child(d, q[0]));
                    assert(at_path(m, q) == at_path(d, q));
                }
            }
        }
        if without_key(d, k0) && !p.contains(k0) {
            assert(p[0] != k0);
            assert(!pr.contains(k0)) by {
                if pr.contains(k0) {
                    let j = choose|j: int| 0 <= j < pr.len() && pr[j] == k0;
                    assert(p[j + 1] == k0);
                }
            }
            assert forall|q2: Seq<Seq<char>>| (#[trigger] at_path(c, q2) matches Some(NodeView::Table(t)) ==> entry_index(t, k0) is None) by {
                lemma_at_path_cons(d, p[0], q2);
                assert(at_path(d, seq![p[0]] + q2) == at_path(c, q2));
            }
            assert forall|q: Seq<Seq<char>>| (#[trigger] at_path(m, q) matches Some(NodeView::Table(t)) ==> entry_index(t, k0) is None) by {
                if q.len() == 0 {
                    assert(at_path(d, q) == Some(d));
                    lemma_update_keeps_index(es, i, (p[0], c2), k0);
                } else if q[0] == p[0] {
                    assert(at_path(m, q) == at_path(c2, q.drop_first()));
                } else {
                    assert(child(m, q[0]) == child(d, q[0]));
                    assert(at_path(m, q) == at_path(d, q));
                }
            }
        }
    }
}

/// The value holds no integer of the library's own (`serde_json`'s numbers
/// are carried as other values).
pub open spec fn int_free(n: NodeView) -> bool
    decreases n, 0nat,
{
    match n {
        NodeView::Int(_) => false,
        NodeView::Table(es) => entries_int_free(es),
        NodeView::List(xs) => items_int_free(xs),
        _ => true,
    }
}

/// No entry's value holds an integer.
pub open spec fn entries_int_free(es: Seq<(Seq<char>, NodeView)>) -> bool
    decreases es, 1nat,
{
    if es.len() == 0 {
        true
    } else {
        entries_int_free(es.drop_last()) && int_free(es.last().1)
    }
}

/// No item holds an integer.
pub open spec fn items_int_free(xs: Seq<NodeView>) -> bool
    decreases xs, 1nat,
{
    if xs.len() == 0 {
        true
    } else {
        items_int_free(xs.drop_last()) && int_free(xs.last())
    }
}

proof fn lemma_entries_int_free(es: Seq<(Seq<char>, NodeView)>)
    ensures
        entries_int_free(es) == forall|i: int| 0 <= i < es.len() ==> int_free(#[trigger] es[i].1),
    decreases es.len(),
{
    if es.len() > 0 {
        lemma_entries_int_free(es.drop_last());
        assert forall|i: int| 0 <= i < es.len() - 1 implies es.drop_last()[i] == es[i] by {}
        if entries_int_free(es) {
            assert forall|i: int| 0 <= i < es.len() implies int_free(#[trigger] es[i].1) by {
                if i < es.len() - 1 {
                    assert(int_free(es.drop_last()[i].1));
                }
            }
        }
        if forall|i: int| 0 <= i < es.len() ==> int_free(#[trigger] es[i].1) {
            assert(int_free(es[es.len() - 1].1));
            assert forall|i: int| 0 <= i < es.drop_last().len() implies int_free(
                #[trigger] es.drop_last()[i].1,
            ) by {
                assert(int_free(es[i].1));
            }
        }
    }
}

/// Setting a string at a path keeps a document free of integers.
pub proof fn lemma_set_keeps_int_free(d: NodeView, p: Seq<Seq<char>>, w: Seq<char>)
    requires
        p.len() >= 1,
        set_at(d, p, NodeView::Str(w)) is Ok,
        int_free(d),
    ensures
        int_free(set_at(d, p, NodeView::Str(w))->Ok_0),
    decreases p.len(),
{
    let v = NodeView::Str(w);
    let m = set_at(d, p, v)->Ok_0;
    let es = d->Table_0;
    assert(d == NodeView::Table(es));
    lemma_entries_int_free(es);
    if p.len() == 1 {
        lemma_entry_index(es, p[0]);
        let es2 = insert_entry(es, p[0], v);
        assert(m == NodeView::Table(es2));
        lemma_entries_int_free(es2);
        assert forall|i: int| 0 <= i < es2.len() implies int_free(#[trigger] es2[i].1) by {
            if i < es.len() && es2[i] == es[i] {
                assert(int_free(es[i].1));
            } else {
                assert(es2[i].1 == v);
            }
        }
    } else {
        let i = entry_index(es, p[0])->0;
        lemma_entry_index(es, p[0]);
        let c = es[i].1;
        let pr = p.drop_first();
        assert(int_free(c));
        lemma_set_keeps_int_free(c, pr, w);
        let c2 = set_at(c, pr, v)->Ok_0;
        let es2 = es.update(i, (p[0], c2));
        assert(m == NodeView::Table(es2));
        lemma_entries_int_free(es2);
        assert forall|j: int| 0 <= j < es2.len() implies int_free(#[trigger] es2[j].1) by {
            if j != i {
                assert(int_free(es[j].1));
            }
        }
    }
}

/// Setting a string at a path gives a table, and keeps a document within `k`
/// levels (with or without `null`) when the path is shorter than `k`.
pub proof fn lemma_set_keeps_depth(d: NodeView, p: Seq<Seq<char>>, w: Seq<char>, k: nat, nulls: bool)
    requires
        p.len() >= 1,
        set_at(d, p, NodeView::Str(w)) is Ok,
    ensures
        set_at(d, p, NodeView::Str(w))->Ok_0 is Table,
        fits_within(d, k, nulls) && p.len() < k ==> fits_within(
            set_at(d, p, NodeView::Str(w))->Ok_0,
            k,
            nulls,
        ),
    decreases p.len(),
{
    let v = NodeView::Str(w);
    let m = set_at(d, p, v)->Ok_0;
    let es = d->Table_0;
    assert(d == NodeView::Table(es));
    if p.len() == 1 {
        lemma_entry_index(es, p[0]);
        let es2 = insert_entry(es, p[0], v);
        assert(m == NodeView::Table(es2));
        if fits_within(d, k, nulls) && p.len() < k {
            lemma_entries_fit(es, (k - 1) as nat, nulls);
            lemma_entries_fit(es2, (k - 1) as nat, nulls);
            assert forall|i: int| 0 <= i < es2.len() implies fits_within(
                #[trigger] es2[i].1,
                (k - 1) as nat,
                nulls,
            ) by {
                if i < es.len() && es2[i] == es[i] {
                    assert(fits_within(es[i].1, (k - 1) as nat, nulls));
                } else {
                    assert(es2[i].1 == v);
                }
            }
        }
    } else {
        let i = entry_index(es, p[0])->0;
        lemma_entry_index(es, p[0]);
        let c = es[i].1;
        let pr = p.drop_first();
        lemma_set_keeps_depth(c, pr, w, (k - 1) as nat, nulls);
        let c2 = set_at(c, pr, v)->Ok_0;
        let es2 = es.update(i, (p[0], c2));
        assert(m == NodeView::Table(es2));
        if fits_within(d, k, nulls) && p.len() < k {
            lemma_entries_fit(es, (k - 1) as nat, nulls);
            lemma_entries_fit(es2, (k - 1) as nat, nulls);
            assert(fits_within(c, (k - 1) as nat, nulls));
            assert forall|j: int| 0 <= j < es2.len() implies fits_within(
                #[trigger] es2[j].1,
                (k - 1) as nat,
                nulls,
            ) by {
                if j != i {
                    assert(fits_within(es[j].1, (k - 1) as nat, nulls));
                }
            }
        }
    }
}

// ---------------------------------------------------------------------------
// Reading and writing TOML and JSON
// ---------------------------------------------------------------------------

#[verifier::external_type_specification]
#[verifier::external_body]
pub struct ExTomlValue(toml::Value);

#[verifier::external_type_specification]
#[verifier::external_body]
pub struct ExJsonValue(serde_json::Value);

/// What `toml::from_str::<toml::Value>` gives for a text, as plain values;
/// `None` where it reports an error.
pub uninterp spec fn toml_document(content: Seq<char>) -> Option<NodeView>;

/// What `serde_json::from_str::<serde_json::Value>` gives for a text, as plain
/// values; `None` where it reports an error.
pub uninterp spec fn json_document(content: Seq<char>) -> Option<NodeView>;

/// Converts a value that `toml` parsed: strings, tables, arrays, integers and
/// booleans become the library's, every other value is carried as it is. It is the conversion
/// half of `parse_toml`; nothing is stated of it on its own.
#[verifier::external_body]
fn node_from_toml(v: toml::Value) -> Node<toml::Value> {
    match v {
        toml::Value::String(s) => Node::Str(s),
        toml::Value::Table(t) => {
            let mut es = Vec::new();
            for (k, x) in t {
                es.push((k, node_from_toml(x)));
            }
            Node::Table(es)
        },
        toml::Value::Array(a) => Node::List(a.into_iter().map(node_from_toml).collect()),
        toml::Value::Integer(i) => Node::Int(i),
        toml::Value::Boolean(b) => Node::Bool(b),
        other => Node::Other(other),
    }
}

/// Converts a document back into `toml`'s values; `None` when it holds a
/// JSON `null`, which TOML cannot hold. It is the conversion half of
/// `render_toml`; nothing is stated of it on its own.
#[verifier::external_body]
fn node_to_toml(n: Node<toml::Value>) -> Option<toml::Value> {
    match n {
        Node::Str(s) => Some(toml::Value::String(s)),
        Node::Table(es) => {
            let mut t = toml::Table::new();
            for (k, x) in es {
                t.insert(k, node_to_toml(x)?);
            }
            Some(toml::Value::Table(t))
        },
        Node::List(xs) => Some(toml::Value::Array(xs.into_iter().map(node_to_toml).collect::<Option<_>>()?)),
        Node::Int(i) => Some(toml::Value::Integer(i)),
        Node::Bool(b) => Some(toml::Value::Boolean(b)),
        Node::Null => None,
        Node::Other(v) => Some(v),
    }
}

/// Converts a value that `serde_json` parsed: strings, objects, arrays,
/// booleans and `null` become the library's, every other value (numbers
/// among them) is carried as it is. It is the
/// conversion half of `parse_json`; nothing is stated of it on its own.
#[verifier::external_body]
fn node_from_json(v: serde_json::Value) -> Node<serde_json::Value> {
    match v {
        serde_json::Value::String(s) => Node::Str(s),
        serde_json::Value::Object(m) => {
            let mut es = Vec::new();
            for (k, x) in m {
                es.push((k, node_from_json(x)));
            }
            Node::Table(es)
        },
        serde_json::Value::Array(a) => Node::List(a.into_iter().map(node_from_json).collect()),
        serde_json::Value::Bool(b) => Node::Bool(b),
        serde_json::Value::Null => Node::Null,
        other => Node::Other(other),
    }
}

/// Converts a document back into `serde_json`'s values. It is the conversion
/// half of `render_json`; nothing is stated of it on its own.
#[verifier::external_body]
fn node_to_json(n: Node<serde_json::Value>) -> serde_json::Value {
    match n {
        Node::Str(s) => serde_json::Value::String(s),
        Node::Table(es) => {
            let mut m = serde_json::Map::new();
            for (k, x) in es {
                m.insert(k, node_to_json(x));
            }
            serde_json::Value::Object(m)
        },
        Node::List(xs) => serde_json::Value::Array(xs.into_iter().map(node_to_json).collect()),
        Node::Int(i) => serde_json::Value::from(i),
        Node::Bool(b) => serde_json::Value::Bool(b),
        Node::Null => serde_json::Value::Null,
        Node::Other(v) => v,
    }
}

/// Parses a TOML document with `toml::from_str::<toml::Value>`. The grammar is
/// not written out: what it gives is named `toml_document`. Its tables are
/// `toml::Table` maps, so no two entries of one share a key, and TOML has no
/// `null` (a parsed document, being finite, fits within some number of
/// levels).
#[verifier::external_body]
pub(crate) fn parse_toml(content: &str) -> (r: Option<Node<toml::Value>>)
    ensures
        match r {
            Some(n) => toml_document(content@) == Some(node_view(n)),
            None => toml_document(content@) is None,
        },
        r matches Some(n) ==> distinct_tables(node_view(n)) && exists|k: nat| plain_within(
            node_view(n),
            k,
        ),
{
    match toml::from_str::<toml::Value>(content) {
        Ok(v) => Some(node_from_toml(v)),
        Err(_) => None,
    }
}

/// Parses a JSON text with `serde_json::from_str::<serde_json::Value>`. The
/// grammar is not written out: what it gives is named `json_document`. Its
/// objects are `serde_json::Map` maps, so no two entries of one share a key,
/// and its numbers are carried as other values, so it holds no `Int`.
#[verifier::external_body]
pub(crate) fn parse_json(content: &str) -> (r: Option<Node<serde_json::Value>>)
    ensures
        match r {
            Some(n) => json_document(content@) == Some(node_view(n)),
            None => json_document(content@) is None,
        },
        r matches Some(n) ==> distinct_tables(node_view(n)) && int_free(node_view(n)),
{
    match serde_json::from_str::<serde_json::Value>(content) {
        Ok(v) => Some(node_from_json(v)),
        Err(_) => None,
    }
}

/// Writes a TOML document with `toml::to_string_pretty`. A table holding no
/// `null` is always written (TOML has no `null`, and a document must be a
/// table); other documents are not. The text is not written out, but `toml`
/// reads back what it writes: parsing the text gives an alike document (the
/// same strings, integers and booleans, arrays of alike items, tables with
/// the same keys whatever their order, and other values, floats and dates, of
/// the same kind; what such a value holds is not stated; `parse_toml` is what
/// makes other values, and only of those kinds). Stated for documents whose tables
/// have distinct keys, that have no entry under the key by which `toml` marks
/// a date-time (a table whose first key it is would be read back as a
/// date-time), and that fit within `read_back_depth()` levels (`toml` refuses
/// to read deeper nesting).
#[verifier::external_body]
pub(crate) fn render_toml(n: Node<toml::Value>) -> (r: Option<String>)
    ensures
        node_view(n) is Table && (exists|k: nat| plain_within(node_view(n), k)) ==> r is Some,
        r matches Some(t) ==> (distinct_tables(node_view(n)) && without_key(
            node_view(n),
            toml_marker(),
        ) && nested_within(node_view(n), read_back_depth()) ==> (toml_document(t@) matches Some(
            d,
        ) && alike(d, node_view(n)))),
{
    match node_to_toml(n) {
        Some(v) => toml::to_string_pretty(&v).ok(),
        None => None,
    }
}

/// Writes a JSON document with `serde_json::to_string_pretty`, which does not
/// fail on a `serde_json::Value` (its map keys are strings). The text is not
/// written out, but `serde_json` reads back what it writes: parsing the text
/// gives an alike document (the same strings, booleans and `null`s, arrays of
/// alike items, objects with the same keys, and numbers; what a number holds
/// is not stated; `parse_json` is what makes other values, and only numbers), for documents whose objects have distinct keys, that hold
/// no `Int` (it is written as a number, which reads back as an other value)
/// and that fit within `read_back_depth()` levels (`serde_json` refuses to
/// read deeper nesting).
#[verifier::external_body]
pub(crate) fn render_json(n: Node<serde_json::Value>) -> (r: Option<String>)
    ensures
        r is Some,
        r matches Some(t) ==> (distinct_tables(node_view(n)) && int_free(node_view(n))
            && nested_within(node_view(n), read_back_depth()) ==> (json_document(t@) matches Some(d)
            && alike(d, node_view(n)))),
{
    serde_json::to_string_pretty(&node_to_json(n)).ok()
}

} // verus!
