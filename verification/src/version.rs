//! Writing a new version into a package's version file.
use vstd::prelude::*;

use crate::document::{
    fits_within, lemma_fits_more, lemma_set_keeps_depth, nested_within, plain_within,
    read_back_depth, distinct_tables, lemma_set_keeps, same_shapes, alike, lemma_alike_shapes, int_free, lemma_set_keeps_int_free, shape, starts_path, toml_marker, without_key,
    Shape,
    at_path, insert_entry, json_document, node_view, parse_json, parse_toml,
    path_of, path_parts, render_json, render_toml, set_at, set_path, split_path, toml_document,
    Node, NodeView, SetError, SetFailure,
};
use crate::detect::{read_version_outcome, version_of, go_line_version, first_line_version, lemma_first_line_version_at, lemma_python_line_version_strip_cr, python_line_version};
use crate::semver_value::{reads_back, version_text, SemVer};
use crate::PackageType;
use crate::text::{
    split_char,
    chars_of, contains, contains_seq, extend, find_char, index_of, join, join_vec, lemma_index_of,
    lines, lines_vec, slice, string_of, views, lemma_views_push, occurs_at, lemma_index_of_is,
    strip_cr, rfind_char, last_index_of,
};

verus! {

/// The quote a line of `__init__.py` uses: `"` when it has one, else `'`.
pub open spec fn quote_of(line: Seq<char>) -> char {
    if index_of(line, '"') is Some {
        '"'
    } else {
        '\''
    }
}

/// A line of `__init__.py` rewritten to declare version `v`: when it mentions
/// `__version__` and has an `=`, everything up to the `=`, a space, and `v`
/// in the line's quote.
pub open spec fn updated_init_line(line: Seq<char>, v: Seq<char>) -> Option<Seq<char>> {
    if contains(line, "__version__"@) {
        match index_of(line, '=') {
            Some(e) => Some(
                line.take((e + 1) as int) + seq![' ', quote_of(line)] + v + seq![quote_of(line)],
            ),
            None => None,
        }
    } else {
        None
    }
}

/// A line of `version.go` rewritten to declare version `v`: when the line
/// gives a version (it names `Version`, has an `=` and quotes a text in double
/// quotes), the quoted text is replaced by `v`.
pub open spec fn updated_go_line(line: Seq<char>, v: Seq<char>) -> Option<Seq<char>> {
    if go_line_version(line) is Some {
        Some(
            line.take((index_of(line, '"')->0 + 1) as int) + v + line.skip(last_index_of(line, '"')->0 as int),
        )
    } else {
        None
    }
}

/// A line rewritten to declare `v`, in `version.go` (`go`) or `__init__.py`.
pub open spec fn rewritten_line(line: Seq<char>, v: Seq<char>, go: bool) -> Option<Seq<char>> {
    if go {
        updated_go_line(line, v)
    } else {
        updated_init_line(line, v)
    }
}

/// The index of the first line that can be rewritten.
pub open spec fn first_rewritable_line(ls: Seq<Seq<char>>, v: Seq<char>, go: bool) -> Option<nat>
    decreases ls.len(),
{
    if ls.len() == 0 {
        None
    } else if rewritten_line(ls[0], v, go) is Some {
        Some(0)
    } else {
        match first_rewritable_line(ls.drop_first(), v, go) {
            Some(k) => Some(k + 1),
            None => None,
        }
    }
}

/// A source file declaring version `v`: its first line that can be rewritten
/// is, and the lines are joined with line feeds; `None` when no line can be.
pub open spec fn line_update_text(content: Seq<char>, v: Seq<char>, go: bool) -> Option<Seq<char>> {
    let ls = lines(content);
    match first_rewritable_line(ls, v, go) {
        Some(k) => Some(join(ls.update(k as int, rewritten_line(ls[k as int], v, go)->0), "\n"@)),
        None => None,
    }
}

/// `__init__.py` declaring version `v`: its first line that can be rewritten
/// is, and the lines are joined with line feeds; `None` when no line can be.
pub open spec fn python_init_update_text(content: Seq<char>, v: Seq<char>) -> Option<Seq<char>> {
    line_update_text(content, v, false)
}

/// `version.go` declaring version `v`: its first line that gives a version has
/// the quoted text replaced, and the lines are joined with line feeds; `None`
/// when no line gives a version.
pub open spec fn go_update_text(content: Seq<char>, v: Seq<char>) -> Option<Seq<char>> {
    line_update_text(content, v, true)
}

proof fn lemma_first_init_line(ls: Seq<Seq<char>>, v: Seq<char>, go: bool)
    ensures
        match first_rewritable_line(ls, v, go) {
            Some(k) => k < ls.len() && rewritten_line(ls[k as int], v, go) is Some && forall|j: int|
                0 <= j < k ==> rewritten_line(#[trigger] ls[j], v, go) is None,
            None => forall|j: int| 0 <= j < ls.len() ==> rewritten_line(#[trigger] ls[j], v, go) is None,
        },
    decreases ls.len(),
{
    if ls.len() > 0 {
        lemma_first_init_line(ls.drop_first(), v, go);
        assert forall|j: int| 0 < j < ls.len() implies ls[j] == ls.drop_first()[j - 1] by {}
    }
}

fn init_line_rewrite(line: &Vec<char>, v: &Vec<char>) -> (r: Option<Vec<char>>)
    ensures
        match r {
            Some(x) => updated_init_line(line@, v@) == Some(x@),
            None => updated_init_line(line@, v@) is None,
        },
{
    let key = chars_of("__version__");
    if !contains_seq(line, &key) {
        return None;
    }
    match find_char(line, '=') {
        None => None,
        Some(e) => {
            proof {
                lemma_index_of(line@, '=');
            }
            assert(e < line.len());
            let q = if find_char(line, '"').is_some() {
                '"'
            } else {
                '\''
            };
            let mut out = slice(line, 0, e + 1);
            out.push(' ');
            out.push(q);
            extend(&mut out, v);
            out.push(q);
            assert(out@ =~= line@.take(e + 1) + seq![' ', quote_of(line@)] + v@ + seq![
                quote_of(line@),
            ]);
            Some(out)
        },
    }
}

fn go_line_rewrite(line: &Vec<char>, v: &Vec<char>) -> (r: Option<Vec<char>>)
    ensures
        match r {
            Some(x) => updated_go_line(line@, v@) == Some(x@),
            None => updated_go_line(line@, v@) is None,
        },
{
    let key = chars_of("Version");
    if !contains_seq(line, &key) || find_char(line, '=').is_none() {
        return None;
    }
    proof {
        lemma_index_of(line@, '"');
        crate::text::lemma_last_index_of(line@, '"');
    }
    match find_char(line, '"') {
        None => None,
        Some(a) => match rfind_char(line, '"') {
            None => None,
            Some(b) => {
                if a < b {
                    let mut out = slice(line, 0, a + 1);
                    extend(&mut out, v);
                    let tail = slice(line, b, line.len());
                    extend(&mut out, &tail);
                    assert(out@ =~= line@.take(a + 1) + v@ + line@.skip(b as int));
                    Some(out)
                } else {
                    None
                }
            },
        },
    }
}

fn updated_line(line: &Vec<char>, v: &Vec<char>, go: bool) -> (r: Option<Vec<char>>)
    ensures
        match r {
            Some(x) => rewritten_line(line@, v@, go) == Some(x@),
            None => rewritten_line(line@, v@, go) is None,
        },
{
    if go {
        go_line_rewrite(line, v)
    } else {
        init_line_rewrite(line, v)
    }
}

/// Why a version could not be written into a file, as plain values.
pub enum UpdateFailure {
    NoInitVersion,
    NoGoVersion,
    Syntax,
    NotFound(Seq<char>),
    NotTable,
    NotObject,
    IndexMissing,
    NotIndexable,
    Unrecognized,
    Render,
}

/// Why a version could not be written into a file.
#[derive(Debug, PartialEq, Eq)]
pub enum UpdateError {
    /// `__init__.py` has no line declaring `__version__ = ...`.
    NoInitVersion,
    /// `version.go` has no line declaring `Version = "..."`.
    NoGoVersion,
    /// The file is not valid TOML or JSON.
    Syntax,
    /// A part of the version path, before the last, names nothing.
    NotFound(String),
    /// The TOML value that should hold the version is not a table.
    NotTable,
    /// The JSON value that should hold the version is not an object.
    NotObject,
    /// `Cargo.toml` has no `package.version` to overwrite; indexing it fails
    /// (the application stops there).
    IndexMissing,
    /// `package.json` is neither an object nor `null`; indexing it fails (the
    /// application stops there).
    NotIndexable,
    /// The file is neither TOML nor JSON.
    Unrecognized,
    /// The edited document could not be written out.
    Render,
}

impl UpdateError {
    /// This error as plain values.
    pub open spec fn failure(&self) -> UpdateFailure {
        match self {
            UpdateError::NoInitVersion => UpdateFailure::NoInitVersion,
            UpdateError::NoGoVersion => UpdateFailure::NoGoVersion,
            UpdateError::Syntax => UpdateFailure::Syntax,
            UpdateError::NotFound(p) => UpdateFailure::NotFound(p@),
            UpdateError::NotTable => UpdateFailure::NotTable,
            UpdateError::NotObject => UpdateFailure::NotObject,
            UpdateError::IndexMissing => UpdateFailure::IndexMissing,
            UpdateError::NotIndexable => UpdateFailure::NotIndexable,
            UpdateError::Unrecognized => UpdateFailure::Unrecognized,
            UpdateError::Render => UpdateFailure::Render,
        }
    }
}

/// Rewrites the first line that can be rewritten (`go` for `version.go`,
/// else for `__init__.py`) to declare `new_version`; `None` when none can be.
fn rewrite_lines(content: &str, new_version: &SemVer, go: bool) -> (r: Option<String>)
    ensures
        match line_update_text(content@, version_text(new_version@), go) {
            Some(t) => r matches Some(s) && s@ == t,
            None => r is None,
        },
{
    let c = chars_of(content);
    let ls = lines_vec(&c);
    let vs = new_version.to_string();
    let v = chars_of(vs.as_str());
    proof {
        lemma_first_init_line(views(ls@), v@, go);
    }
    let mut out: Vec<Vec<char>> = Vec::new();
    let mut k: usize = 0;
    while k < ls.len()
        invariant
            k <= ls.len(),
            views(ls@) == lines(content@),
            v@ == version_text(new_version@),
            forall|j: int| 0 <= j < k ==> rewritten_line(#[trigger] views(ls@)[j], v@, go) is None,
            views(out@) == views(ls@).take(k as int),
        decreases ls.len() - k,
    {
        match updated_line(&ls[k], &v, go) {
            Some(x) => {
                proof {
                    lemma_first_init_line_is(views(ls@), v@, go, k as int);
                }
                let ghost before = out@;
                out.push(x);
                proof {
                    lemma_views_push(before, x);
                }
                let mut j = k + 1;
                while j < ls.len()
                    invariant
                        k < j <= ls.len(),
                        views(out@) == views(ls@).update(k as int, x@).take(j as int),
                    decreases ls.len() - j,
                {
                    let ghost before = out@;
                    let l = slice(&ls[j], 0, ls[j].len());
                    assert(l@ =~= ls@[j as int]@);
                    out.push(l);
                    proof {
                        lemma_views_push(before, l);
                        assert(views(ls@).update(k as int, x@).take(j + 1) =~= views(ls@).update(
                            k as int,
                            x@,
                        ).take(j as int).push(ls@[j as int]@));
                    }
                    j += 1;
                }
                assert(views(ls@).update(k as int, x@).take(ls.len() as int) =~= views(
                    ls@,
                ).update(k as int, x@));
                let nl = chars_of("\n");
                let joined = join_vec(&out, &nl);
                return Some(string_of(&joined));
            },
            None => {},
        }
        let ghost before = out@;
        let l = slice(&ls[k], 0, ls[k].len());
        assert(l@ =~= ls@[k as int]@);
        out.push(l);
        proof {
            lemma_views_push(before, l);
            assert(views(ls@).take(k + 1) =~= views(ls@).take(k as int).push(ls@[k as int]@));
        }
        k += 1;
    }
    proof {
        lemma_first_init_line_none(views(ls@), v@, go);
    }
    None
}

/// Rewrites `__init__.py` to declare `new_version`: the first line that
/// mentions `__version__` and has an `=` keeps what precedes the `=` and gets
/// the version in the line's quote; lines are joined with line feeds.
pub fn update_python_init_version(content: &str, new_version: &SemVer) -> (r: Result<
    String,
    UpdateError,
>)
    ensures
        match python_init_update_text(content@, version_text(new_version@)) {
            Some(t) => r matches Ok(s) && s@ == t,
            None => r == Err::<String, UpdateError>(UpdateError::NoInitVersion),
        },
{
    match rewrite_lines(content, new_version, false) {
        Some(s) => Ok(s),
        None => Err(UpdateError::NoInitVersion),
    }
}

/// Rewrites `version.go` to declare `new_version`: the quoted text of the
/// first line that names `Version`, has an `=` and quotes a text is replaced
/// by the version; lines are joined with line feeds.
pub fn update_go_version(content: &str, new_version: &SemVer) -> (r: Result<String, UpdateError>)
    ensures
        match go_update_text(content@, version_text(new_version@)) {
            Some(t) => r matches Ok(s) && s@ == t,
            None => r == Err::<String, UpdateError>(UpdateError::NoGoVersion),
        },
{
    match rewrite_lines(content, new_version, true) {
        Some(s) => Ok(s),
        None => Err(UpdateError::NoGoVersion),
    }
}

proof fn lemma_first_init_line_is(ls: Seq<Seq<char>>, v: Seq<char>, go: bool, k: int)
    requires
        0 <= k < ls.len(),
        rewritten_line(ls[k], v, go) is Some,
        forall|j: int| 0 <= j < k ==> rewritten_line(#[trigger] ls[j], v, go) is None,
    ensures
        first_rewritable_line(ls, v, go) == Some(k as nat),
    decreases k,
{
    if k > 0 {
        assert forall|j: int| 0 <= j < k - 1 implies rewritten_line(#[trigger] ls.drop_first()[j], v, go) is None by {
            assert(ls.drop_first()[j] == ls[j + 1]);
        }
        lemma_first_init_line_is(ls.drop_first(), v, go, k - 1);
    }
}

proof fn lemma_first_init_line_none(ls: Seq<Seq<char>>, v: Seq<char>, go: bool)
    requires
        forall|j: int| 0 <= j < ls.len() ==> rewritten_line(#[trigger] ls[j], v, go) is None,
    ensures
        first_rewritable_line(ls, v, go) is None,
    decreases ls.len(),
{
    if ls.len() > 0 {
        assert forall|j: int| 0 <= j < ls.len() - 1 implies rewritten_line(#[trigger] ls.drop_first()[j], v, go) is None by {
            assert(ls.drop_first()[j] == ls[j + 1]);
        }
        lemma_first_init_line_none(ls.drop_first(), v, go);
    }
}

/// What writing a version into a file comes to: a new text, an edited
/// document (written out by the document's crate), or a failure.
pub enum UpdatePlan {
    Text(Seq<char>),
    Document(NodeView),
    Fail(UpdateFailure),
}

/// A failure to set a value, for TOML (`table`) or JSON.
pub open spec fn set_failure(f: SetFailure, toml: bool) -> UpdateFailure {
    match f {
        SetFailure::NotFound(p) => UpdateFailure::NotFound(p),
        SetFailure::NotTable => if toml {
            UpdateFailure::NotTable
        } else {
            UpdateFailure::NotObject
        },
    }
}

/// The document with the string `v` set at `path`.
pub open spec fn set_plan(d: NodeView, path: Seq<Seq<char>>, v: Seq<char>, toml: bool) -> UpdatePlan {
    match set_at(d, path, NodeView::Str(v)) {
        Ok(m) => UpdatePlan::Document(m),
        Err(f) => UpdatePlan::Fail(set_failure(f, toml)),
    }
}

/// What writing version `v` into a version file comes to, by package type:
/// `Cargo.toml` gets `package.version` overwritten (it must be there),
/// `package.json` gets `version` set at its top level (`null` becomes an
/// object), a Go package's `version.go` gets its `Version = "..."` line
/// rewritten,
/// `__init__.py` gets its `__version__` line rewritten, and `pyproject.toml`
/// or any other TOML or JSON file gets the value at the configured dotted path
/// set. Maven, Gradle and .NET project files are neither TOML nor JSON, so a
/// version is not written into them (`Unrecognized`).
pub open spec fn update_outcome(
    content: Seq<char>,
    file_name: Seq<char>,
    t: PackageType,
    version_path: Seq<char>,
    v: Seq<char>,
) -> UpdatePlan {
    let vs = NodeView::Str(v);
    match t {
        PackageType::Rust => match toml_document(content) {
            None => UpdatePlan::Fail(UpdateFailure::Syntax),
            Some(d) => if at_path(d, seq!["package"@, "version"@]) is Some {
                set_plan(d, seq!["package"@, "version"@], v, true)
            } else {
                UpdatePlan::Fail(UpdateFailure::IndexMissing)
            },
        },
        PackageType::Node => match json_document(content) {
            None => UpdatePlan::Fail(UpdateFailure::Syntax),
            Some(d) => match d {
                NodeView::Table(es) => UpdatePlan::Document(
                    NodeView::Table(insert_entry(es, "version"@, vs)),
                ),
                NodeView::Null => UpdatePlan::Document(NodeView::Table(seq![("version"@, vs)])),
                _ => UpdatePlan::Fail(UpdateFailure::NotIndexable),
            },
        },
        PackageType::Go if file_name == "version.go"@ => match go_update_text(content, v) {
            Some(s) => UpdatePlan::Text(s),
            None => UpdatePlan::Fail(UpdateFailure::NoGoVersion),
        },
        PackageType::Python => if file_name == "__init__.py"@ {
            match python_init_update_text(content, v) {
                Some(s) => UpdatePlan::Text(s),
                None => UpdatePlan::Fail(UpdateFailure::NoInitVersion),
            }
        } else {
            match toml_document(content) {
                None => UpdatePlan::Fail(UpdateFailure::Syntax),
                Some(d) => set_plan(d, path_parts(version_path), v, true),
            }
        },
        _ => match toml_document(content) {
            Some(d) => set_plan(d, path_parts(version_path), v, true),
            None => match json_document(content) {
                Some(d) => set_plan(d, path_parts(version_path), v, false),
                None => UpdatePlan::Fail(UpdateFailure::Unrecognized),
            },
        },
    }
}

/// The result of writing out a document: its text, or the render failure.
fn rendered(r: Option<String>) -> (out: Result<String, UpdateError>)
    ensures
        match r {
            Some(s) => out == Ok::<String, UpdateError>(s),
            None => out == Err::<String, UpdateError>(UpdateError::Render),
        },
{
    match r {
        Some(s) => Ok(s),
        None => Err(UpdateError::Render),
    }
}

fn set_error(e: SetError, toml: bool) -> (r: UpdateError)
    ensures
        r.failure() == set_failure(e.failure(), toml),
{
    match e {
        SetError::NotFound(p) => UpdateError::NotFound(p),
        SetError::NotTable => if toml {
            UpdateError::NotTable
        } else {
            UpdateError::NotObject
        },
    }
}

/// The document that writing a version edits, and whether it is TOML: the
/// JSON document of `package.json`, the TOML document of `Cargo.toml` and
/// `pyproject.toml`, and for other files the TOML document when the text is
/// TOML, else the JSON one.
pub open spec fn edited_document(content: Seq<char>, t: PackageType) -> Option<(NodeView, bool)> {
    match t {
        PackageType::Node => match json_document(content) {
            Some(d) => Some((d, false)),
            None => None,
        },
        PackageType::Rust | PackageType::Python => match toml_document(content) {
            Some(d) => Some((d, true)),
            None => None,
        },
        _ => match toml_document(content) {
            Some(d) => Some((d, true)),
            None => match json_document(content) {
                Some(d) => Some((d, false)),
                None => None,
            },
        },
    }
}

/// The document that a written text gives when read again, as TOML or JSON.
pub open spec fn reread(text: Seq<char>, toml: bool) -> Option<NodeView> {
    if toml {
        toml_document(text)
    } else {
        json_document(text)
    }
}

/// A written text, read again, holds the string `v` at `loc`, and every other
/// path below the top level (one that does not start with `loc`) finds the
/// same string, table or other kind as in `before`.
pub open spec fn holds_version(
    text: Seq<char>,
    toml: bool,
    before: NodeView,
    loc: Seq<Seq<char>>,
    v: Seq<char>,
) -> bool {
    &&& reread(text, toml) is Some
    &&& shape(at_path(reread(text, toml)->0, loc)) == Shape::Text(v)
    &&& forall|q: Seq<Seq<char>>|
        q.len() > 0 && !starts_path(q, loc) ==> #[trigger] shape(at_path(reread(text, toml)->0, q))
            == shape(at_path(before, q))
}

/// A written text, read again, gives back the document `m` (alike it).
pub open spec fn gives_back(text: Seq<char>, toml: bool, m: NodeView) -> bool {
    reread(text, toml) matches Some(d2) && alike(d2, m)
}

/// When reading a written text again is stated: when the document fits
/// within `read_back_depth()` levels (the parsers refuse deeper nesting) and
/// the version's location is shorter than that; for TOML also when no table
/// of the document has an entry under `toml`'s date-time marker key and the
/// version's location does not name it.
pub open spec fn reread_stated(before: NodeView, toml: bool, loc: Seq<Seq<char>>) -> bool {
    &&& nested_within(before, read_back_depth())
    &&& loc.len() < read_back_depth()
    &&& toml ==> without_key(before, toml_marker()) && !loc.contains(toml_marker())
}

/// A value within `k` levels is within any more levels.
proof fn lemma_fits_up(n: NodeView, k: nat, k2: nat, nulls: bool)
    requires
        fits_within(n, k, nulls),
        k <= k2,
    ensures
        fits_within(n, k2, nulls),
    decreases k2 - k,
{
    if k < k2 {
        lemma_fits_more(n, k, nulls);
        lemma_fits_up(n, k + 1, k2, nulls);
    }
}

/// A document with the same shapes as `before` edited at `p` holds the string
/// there and keeps every other path's shape.
proof fn lemma_edit_reread(before: NodeView, p: Seq<Seq<char>>, vt: Seq<char>, d2: NodeView)
    requires
        p.len() >= 1,
        set_at(before, p, NodeView::Str(vt)) is Ok,
        same_shapes(d2, set_at(before, p, NodeView::Str(vt))->Ok_0),
    ensures
        shape(at_path(d2, p)) == Shape::Text(vt),
        forall|q: Seq<Seq<char>>|
            !starts_path(q, p) ==> #[trigger] shape(at_path(d2, q)) == shape(at_path(before, q)),
{
    let m = set_at(before, p, NodeView::Str(vt))->Ok_0;
    crate::document::law_set_then_read(before, p, NodeView::Str(vt));
    lemma_set_keeps(before, p, vt, toml_marker());
    assert(shape(at_path(d2, p)) == shape(at_path(m, p)));
    assert forall|q: Seq<Seq<char>>| !starts_path(q, p) implies #[trigger] shape(at_path(d2, q))
        == shape(at_path(before, q)) by {
        assert(shape(at_path(d2, q)) == shape(at_path(m, q)));
    }
}

fn set_and_render_toml(d: Node<toml::Value>, path: &Vec<Vec<char>>, v: &SemVer) -> (r: Result<
    String,
    UpdateError,
>)
    requires
        distinct_tables(node_view(d)),
        exists|k: nat| plain_within(node_view(d), k),
        views(path@).len() >= 1,
    ensures
        match set_plan(node_view(d), views(path@), version_text(v@), true) {
            UpdatePlan::Fail(f) => r matches Err(e) && e.failure() == f,
            _ => r is Ok,
        },
        r matches Ok(x) ==> (reread_stated(node_view(d), true, views(path@)) ==> holds_version(
            x@,
            true,
            node_view(d),
            views(path@),
            version_text(v@),
        ) && (set_plan(node_view(d), views(path@), version_text(v@), true) matches UpdatePlan::Document(
            m,
        ) && gives_back(x@, true, m))),
{
    let s = v.to_string();
    let ghost before = node_view(d);
    let ghost p = views(path@);
    assert(views(path@).skip(0) =~= views(path@));
    match set_path(d, path, 0, Node::Str(s)) {
        Ok(m) => {
            proof {
                lemma_set_keeps(before, p, version_text(v@), toml_marker());
                let k0 = choose|k: nat| plain_within(before, k);
                let k = if k0 > p.len() { k0 } else { (p.len() + 1) as nat };
                lemma_fits_up(before, k0, k, false);
                lemma_set_keeps_depth(before, p, version_text(v@), k, false);
                lemma_set_keeps_depth(before, p, version_text(v@), read_back_depth(), true);
                assert(plain_within(node_view(m), k));
            }
            let r = render_toml(m);
            proof {
                match &r {
                    Some(t) => {
                        if reread_stated(before, true, p) {
                            lemma_alike_shapes(toml_document(t@)->0, node_view(m));
                            lemma_edit_reread(before, p, version_text(v@), toml_document(t@)->0);
                        }
                    },
                    None => {},
                }
            }
            rendered(r)
        },
        Err(e) => Err(set_error(e, true)),
    }
}

fn set_and_render_json(d: Node<serde_json::Value>, path: &Vec<Vec<char>>, v: &SemVer) -> (r: Result<
    String,
    UpdateError,
>)
    requires
        distinct_tables(node_view(d)),
        int_free(node_view(d)),
        views(path@).len() >= 1,
    ensures
        match set_plan(node_view(d), views(path@), version_text(v@), false) {
            UpdatePlan::Fail(f) => r matches Err(e) && e.failure() == f,
            _ => r is Ok,
        },
        r matches Ok(x) ==> (reread_stated(node_view(d), false, views(path@)) ==> holds_version(
            x@,
            false,
            node_view(d),
            views(path@),
            version_text(v@),
        ) && (set_plan(node_view(d), views(path@), version_text(v@), false) matches UpdatePlan::Document(
            m,
        ) && gives_back(x@, false, m))),
{
    let s = v.to_string();
    let ghost before = node_view(d);
    let ghost p = views(path@);
    assert(views(path@).skip(0) =~= views(path@));
    match set_path(d, path, 0, Node::Str(s)) {
        Ok(m) => {
            proof {
                lemma_set_keeps(before, p, version_text(v@), toml_marker());
                lemma_set_keeps_depth(before, p, version_text(v@), read_back_depth(), true);
                lemma_set_keeps_int_free(before, p, version_text(v@));
            }
            let r = render_json(m);
            proof {
                match &r {
                    Some(t) => {
                        if reread_stated(before, false, p) {
                            lemma_alike_shapes(json_document(t@)->0, node_view(m));
                            lemma_edit_reread(before, p, version_text(v@), json_document(t@)->0);
                        }
                    },
                    None => {},
                }
            }
            rendered(r)
        },
        Err(e) => Err(set_error(e, false)),
    }
}

/// Writes `new_version` into the text of a version file, given its file name
/// (the file itself is read and written by the caller). A new `__init__.py` or
/// `version.go` text is stated exactly. An edited TOML or JSON document is
/// always written out, by `toml` or `serde_json`: its text is not spelled out,
/// but read again it gives the edited document (`alike` it: the entries of a
/// table may come in another order, and what a float, a date or a JSON number
/// holds is not stated), which holds the new version where reading looks for
/// it (`reread_stated` says when this is stated).
pub fn update_version(
    content: &str,
    file_name: &str,
    package_type: &PackageType,
    version_path: &str,
    new_version: &SemVer,
) -> (r: Result<String, UpdateError>)
    ensures
        match update_outcome(
            content@,
            file_name@,
            *package_type,
            version_path@,
            version_text(new_version@),
        ) {
            UpdatePlan::Text(s) => r matches Ok(x) && x@ == s,
            UpdatePlan::Document(_) => r is Ok,
            UpdatePlan::Fail(f) => r matches Err(e) && e.failure() == f,
        },
        update_outcome(
            content@,
            file_name@,
            *package_type,
            version_path@,
            version_text(new_version@),
        ) matches UpdatePlan::Document(m) ==> (edited_document(content@, *package_type) matches Some(
            (d, toml),
        ) && (r matches Ok(x) ==> (reread_stated(
            d,
            toml,
            version_location(*package_type, version_path@),
        ) ==> holds_version(
            x@,
            toml,
            d,
            version_location(*package_type, version_path@),
            version_text(new_version@),
        ) && gives_back(x@, toml, m)))),
{
    proof {
        lemma_index_of(version_path@, '.');
        assert(path_parts(version_path@).len() >= 1) by {
            reveal_with_fuel(split_char, 1);
        }
    }
    match package_type {
        PackageType::Rust => match parse_toml(content) {
            None => Err(UpdateError::Syntax),
            Some(d) => {
                let path = path_of(&["package", "version"]);
                assert(views(path@) =~= seq!["package"@, "version"@]);
                if d.get_path(&path).is_none() {
                    return Err(UpdateError::IndexMissing);
                }
                set_and_render_toml(d, &path, new_version)
            },
        },
        PackageType::Node => match parse_json(content) {
            None => Err(UpdateError::Syntax),
            Some(d) => {
                let path = path_of(&["version"]);
                assert(views(path@) =~= seq!["version"@]);
                match d {
                    Node::Table(_) => set_and_render_json(d, &path, new_version),
                    Node::Null => {
                        let empty: Node<serde_json::Value> = Node::Table(Vec::new());
                        proof {
                            lemma_empty_table(node_view(empty));
                        }
                        set_and_render_json(empty, &path, new_version)
                    },
                    _ => Err(UpdateError::NotIndexable),
                }
            },
        },
        PackageType::Go if crate::text::chars_eq_str(&chars_of(file_name), "version.go") => {
            update_go_version(content, new_version)
        },
        PackageType::Python => {
            let f = chars_of(file_name);
            if crate::text::chars_eq_str(&f, "__init__.py") {
                update_python_init_version(content, new_version)
            } else {
                match parse_toml(content) {
                    None => Err(UpdateError::Syntax),
                    Some(d) => {
                        let path = split_path(version_path);
                        set_and_render_toml(d, &path, new_version)
                    },
                }
            }
        },
        _ => match parse_toml(content) {
            Some(d) => {
                let path = split_path(version_path);
                set_and_render_toml(d, &path, new_version)
            },
            None => match parse_json(content) {
                Some(d) => {
                    let path = split_path(version_path);
                    set_and_render_json(d, &path, new_version)
                },
                None => Err(UpdateError::Unrecognized),
            },
        },
    }
}

/// An empty table, and `null` below its top level.
proof fn lemma_empty_table(e: NodeView)
    requires
        e == NodeView::Table(seq![]),
    ensures
        distinct_tables(e),
        forall|q: Seq<Seq<char>>|
            q.len() > 0 ==> #[trigger] at_path(e, q) is None && at_path(NodeView::Null, q) is None,
{
    assert forall|q: Seq<Seq<char>>|
        (#[trigger] at_path(e, q) matches Some(NodeView::Table(t)) ==> crate::document::keys_distinct(
            t,
        )) by {
        if q.len() > 0 {
            assert(crate::document::entry_index(seq![], q[0]) is None);
        } else {
            assert(at_path(e, q) == Some(e));
        }
    }
    assert forall|q: Seq<Seq<char>>| q.len() > 0 implies #[trigger] at_path(e, q) is None
        && at_path(NodeView::Null, q) is None by {
        assert(crate::document::entry_index(seq![], q[0]) is None);
    }
}

/// The path at which a package type's version lives in its document.
pub open spec fn version_location(t: PackageType, version_path: Seq<char>) -> Seq<Seq<char>> {
    match t {
        PackageType::Rust => seq!["package"@, "version"@],
        PackageType::Node => seq!["version"@],
        _ => path_parts(version_path),
    }
}

/// Writing a version into a TOML or JSON version file gives a document in
/// which the version's place, the one reading looks at, holds the version
/// written.
pub proof fn law_update_then_read(
    content: Seq<char>,
    file_name: Seq<char>,
    t: PackageType,
    version_path: Seq<char>,
    v: Seq<char>,
)
    ensures
        update_outcome(content, file_name, t, version_path, v) matches UpdatePlan::Document(m)
            ==> at_path(m, version_location(t, version_path)) == Some(NodeView::Str(v)),
{
    let vs = NodeView::Str(v);
    let u = update_outcome(content, file_name, t, version_path, v);
    let loc = version_location(t, version_path);
    crate::text::lemma_index_of(version_path, '.');
    assert(path_parts(version_path).len() >= 1) by {
        reveal_with_fuel(split_char, 1);
    }
    if t is Rust {
        match toml_document(content) {
            Some(d) => {
                let p = seq!["package"@, "version"@];
                crate::document::law_set_then_read(d, p, vs);
                assert(loc == p);
                assert(u == set_plan(d, p, v, true) || u is Fail);
            },
            None => {},
        }
        assert(u matches UpdatePlan::Document(m) ==> at_path(m, loc) == Some(vs));
    } else if t is Node {
        match json_document(content) {
            Some(d) => {
                assert(loc =~= seq!["version"@]);
                assert(loc.drop_first() =~= Seq::<Seq<char>>::empty());
                assert(loc[0] == "version"@);
                match d {
                    NodeView::Table(es) => {
                        crate::document::lemma_insert_entry_then_read(es, "version"@, vs);
                        let m = NodeView::Table(insert_entry(es, "version"@, vs));
                        assert(u == UpdatePlan::Document(m));
                        assert(at_path(m, loc) == at_path(vs, loc.drop_first()));
                    },
                    NodeView::Null => {
                        crate::document::lemma_insert_entry_then_read(seq![], "version"@, vs);
                        assert(insert_entry(seq![], "version"@, vs) =~= seq![("version"@, vs)]);
                        let m = NodeView::Table(seq![("version"@, vs)]);
                        assert(u == UpdatePlan::Document(m));
                        assert(at_path(m, loc) == at_path(vs, loc.drop_first()));
                    },
                    _ => {},
                }
            },
            None => {},
        }
        assert(u matches UpdatePlan::Document(m) ==> at_path(m, loc) == Some(vs));
    } else {
        match toml_document(content) {
            Some(d) => {
                crate::document::law_set_then_read(d, path_parts(version_path), vs);
            },
            None => match json_document(content) {
                Some(d) => {
                    crate::document::law_set_then_read(d, path_parts(version_path), vs);
                },
                None => {},
            },
        }
        assert(u matches UpdatePlan::Document(m) ==> at_path(m, loc) == Some(vs));
    }
}

/// The conditions under which `__init__.py` gives back the version written
/// into it: the line that is rewritten names `__version__` before its `=`, and
/// has no quote of its kind up to the `=`; the version holds no line feed, and
/// no double quote where the line quotes with single quotes; no earlier line
/// already gives a version.
pub open spec fn init_rereadable(content: Seq<char>, v: Seq<char>) -> bool {
    let ls = lines(content);
    match first_rewritable_line(ls, v, false) {
        None => true,
        Some(k) => {
            let line = ls[k as int];
            let e = index_of(line, '=')->0;
            &&& contains(line.take(e as int), "__version__"@)
            &&& index_of(line.take((e + 1) as int), quote_of(line)) is None
            &&& index_of(v, '\n') is None
            &&& (quote_of(line) == '\'' ==> index_of(v, '"') is None)
            &&& forall|j: int| 0 <= j < k ==> python_line_version(#[trigger] ls[j]) is None
        },
    }
}

/// The rewritten line gives the version written.
proof fn lemma_updated_line_reads(line: Seq<char>, v: Seq<char>)
    requires
        updated_init_line(line, v) is Some,
        contains(line.take(index_of(line, '=')->0 as int), "__version__"@),
        index_of(line.take((index_of(line, '=')->0 + 1) as int), quote_of(line)) is None,
        quote_of(line) == '\'' ==> index_of(v, '"') is None,
    ensures
        python_line_version(updated_init_line(line, v)->0) == Some(v),
{
    lemma_index_of(line, '=');
    let e = index_of(line, '=')->0 as int;
    let q = quote_of(line);
    let pre = line.take(e + 1);
    let n = updated_init_line(line, v)->0;
    assert(n == pre + seq![' ', q] + v + seq![q]);
    let len = n.len() as int;
    assert(len == e + 4 + v.len());
    assert(n[e + 1] == ' ');
    assert(n[e + 2] == q);
    assert(n[len - 1] == q);
    assert forall|m: int| 0 <= m <= e implies n[m] == line[m] by {}
    assert forall|i: int| 0 <= i < v.len() implies n[e + 3 + i] == v[i] by {}
    let p = "__version__"@;
    let i = choose|i: int| occurs_at(line.take(e), p, i);
    assert(n.subrange(i, i + p.len()) =~= line.take(e).subrange(i, i + p.len()));
    assert(occurs_at(n, p, i));
    assert(contains(n, p));
    lemma_index_of(pre, q);
    assert forall|m: int| 0 <= m < e + 2 implies n[m] != q by {
        if m <= e {
            assert(pre[m] == line[m]);
        }
    }
    lemma_index_of_is(n, q, e + 2);
    crate::text::lemma_last_index_of_is(n, q, len - 1);
    assert(n.subrange(e + 3, len - 1) =~= v);
    if q == '"' {
        assert(index_of(n, '"') is Some);
    } else {
        lemma_index_of(line, '"');
        lemma_index_of(v, '"');
        assert forall|m: int| 0 <= m < len implies n[m] != '"' by {
            if m <= e {
            } else if e + 3 <= m < len - 1 {
                assert(n[m] == v[m - e - 3]);
            }
        }
        crate::text::lemma_index_of_none(n, '"');
    }
}

/// Writing a version into `__init__.py` and reading the file again gives back
/// the version written, under `init_rereadable`.
pub proof fn law_init_update_then_read(content: Seq<char>, v: Seq<char>)
    requires
        init_rereadable(content, v),
    ensures
        python_init_update_text(content, v) matches Some(t) ==> first_line_version(
            lines(t),
            false,
        ) == Some(v),
{
    let ls = lines(content);
    lemma_first_init_line(ls, v, false);
    match first_rewritable_line(ls, v, false) {
        None => {},
        Some(k) => {
            let k = k as int;
            let line = ls[k];
            lemma_updated_line_reads(line, v);
            let n = updated_init_line(line, v)->0;
            let l2 = ls.update(k, n);
            let t = join(l2, "\n"@);
            lemma_index_of(line, '=');
            lemma_index_of(v, '\n');
            crate::text::lemma_lines_no_newline(content);
            let e = index_of(line, '=')->0 as int;
            assert(n == line.take(e + 1) + seq![' ', quote_of(line)] + v + seq![quote_of(line)]);
            assert forall|i: int, j: int|
                0 <= i < l2.len() && 0 <= j < l2[i].len() implies #[trigger] l2[i][j] != '\n' by {
                if i == k {
                    if j <= e {
                        assert(l2[i][j] == ls[k][j]);
                    } else if e + 3 <= j < n.len() - 1 {
                        assert(l2[i][j] == v[j - e - 3]);
                    }
                } else {
                    assert(l2[i] == ls[i]);
                }
            }
            crate::text::lemma_lines_join(l2);
            let rl = lines(t);
            assert forall|j: int| 0 <= j < k implies python_line_version(#[trigger] rl[j]) is None by {
                assert(rl[j] == strip_cr(l2[j]));
                assert(l2[j] == ls[j]);
                lemma_python_line_version_strip_cr(ls[j]);
            }
            assert(n.last() == quote_of(line));
            if k < l2.len() - 1 {
                assert(rl[k] == strip_cr(l2[k]));
                assert(strip_cr(n) == n);
            } else {
                assert(l2.last() == n);
            }
            assert(rl[k] == n);
            lemma_first_line_version_at(rl, k, v);
            assert(python_init_update_text(content, v) == Some(t));
        },
    }
}

/// Whether reading a version file takes the document that writing a version
/// edited: always for `Cargo.toml`, `package.json` and `pyproject.toml`, and
/// for the TOML or JSON version file of other package types (not a Go
/// package's `version.go`) when it was written as TOML, which reading tries
/// first.
pub open spec fn reads_written_document(content: Seq<char>, file_name: Seq<char>, t: PackageType) -> bool {
    match t {
        PackageType::Rust | PackageType::Node => true,
        PackageType::Python => file_name != "__init__.py"@,
        PackageType::Go if file_name == "version.go"@ => false,
        _ => edited_document(content, t) matches Some((_d, toml)) && toml,
    }
}

/// Reading a version file that a version was written into gives back the
/// version text written, parsed as a version, whenever the written text,
/// read again, holds the version at its place (what `update_version` states
/// of its result).
pub proof fn law_write_then_read_version(
    content: Seq<char>,
    x: Seq<char>,
    file_name: Seq<char>,
    t: PackageType,
    version_path: Seq<char>,
    v: Seq<char>,
)
    requires
        reads_written_document(content, file_name, t),
        edited_document(content, t) matches Some((d, toml)) && holds_version(
            x,
            toml,
            d,
            version_location(t, version_path),
            v,
        ),
    ensures
        read_version_outcome(x, file_name, t, version_path) == match t {
            PackageType::Rust => version_of(
                Some(v),
                "Failed to read version from Cargo.toml"@,
                "Invalid version in Cargo.toml"@,
            ),
            PackageType::Node => version_of(
                Some(v),
                "Failed to read version from package.json"@,
                "Invalid version in package.json"@,
            ),
            PackageType::Python => version_of(
                Some(v),
                "Failed to read version from pyproject.toml"@,
                "Invalid version in pyproject.toml"@,
            ),
            _ => version_of(
                Some(v),
                "Failed to read version from TOML file"@,
                "Invalid version in TOML file"@,
            ),
        },
{
    let (d, toml) = edited_document(content, t)->0;
    let loc = version_location(t, version_path);
    let d2 = reread(x, toml)->0;
    assert(shape(at_path(d2, loc)) == Shape::Text(v));
    assert(at_path(d2, loc) == Some(NodeView::Str(v)));
    assert(crate::document::text_at(d2, loc) == Some(v));
}

/// Writing a version that reads back (as every version read from a text
/// does) into a version file whose document reading takes, then reading the
/// file's version, gives the version written.
pub proof fn law_write_then_read_same_version(
    content: Seq<char>,
    x: Seq<char>,
    file_name: Seq<char>,
    t: PackageType,
    version_path: Seq<char>,
    v: (u64, u64, u64, Seq<char>, Seq<char>),
)
    requires
        reads_written_document(content, file_name, t),
        reads_back(v),
        edited_document(content, t) matches Some((d, toml)) && holds_version(
            x,
            toml,
            d,
            version_location(t, version_path),
            version_text(v),
        ),
    ensures
        read_version_outcome(x, file_name, t, version_path) == Ok::<_, crate::detect::DetectFailure>(v),
{
    law_write_then_read_version(content, x, file_name, t, version_path, version_text(v));
}

} // verus!
