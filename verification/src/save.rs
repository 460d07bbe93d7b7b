//! Writing a file: Ctrl+S, format-on-save, auto-save, and every draft
//! before something runs. What is written, and what the editor believes is
//! on disk afterwards; the writes themselves are the window's.

use vstd::prelude::*;

use crate::lsp::{is_rust, is_rust_path};
use crate::text::{chars_of, owned, same_text};

verus! {

/// A document as the editor holds it: its path, the text on disk as last
/// read or written, and whether it may be written at all.
pub struct OpenDoc {
    pub path: String,
    /// What is on disk, as far as the editor knows.
    pub text: String,
    /// A dependency's source: not this project's to change.
    pub read_only: bool,
    /// A macro's expansion, shown as a document but backed by no file.
    pub expansion: bool,
    /// The grammar the backend named for it, if any.
    pub language: Option<String>,
}

/// A tab parked behind the one in front, with its own draft.
pub struct ParkedTab {
    pub document: OpenDoc,
    pub draft: String,
}

/// One editor group's documents: the one in front, its draft, and the
/// tabs parked behind it.
pub struct GroupDocs {
    pub document: Option<OpenDoc>,
    pub draft: String,
    pub parked: Vec<ParkedTab>,
}

/// A write to make: these bytes to this path.
pub struct Write {
    pub path: String,
    pub text: String,
}

/// A write as the contracts speak of it.
pub struct WriteView {
    pub path: Seq<char>,
    pub text: Seq<char>,
}

/// A document met on the walk, with its draft and whether it wants writing.
pub struct Candidate {
    pub path: Seq<char>,
    pub text: Seq<char>,
    pub wanted: bool,
}

pub open spec fn write_view(w: Write) -> WriteView {
    WriteView { path: w.path@, text: w.text@ }
}

pub open spec fn write_views(ws: Seq<Write>) -> Seq<WriteView> {
    ws.map_values(|w: Write| write_view(w))
}

/// A document wants writing when it is ours to write, backed by a file,
/// and its draft differs from what is on disk.
pub open spec fn wants_write(doc: OpenDoc, draft: Seq<char>) -> bool {
    !doc.read_only && !doc.expansion && draft != doc.text@
}

pub open spec fn candidate(doc: OpenDoc, draft: Seq<char>) -> Candidate {
    Candidate { path: doc.path@, text: draft, wanted: wants_write(doc, draft) }
}

/// A group's documents in the order they are looked at: the one in front,
/// then the parked tabs.
pub open spec fn group_candidates(g: GroupDocs) -> Seq<Candidate> {
    (match g.document {
        Some(d) => seq![candidate(d, g.draft@)],
        None => Seq::empty(),
    }) + g.parked@.map_values(|t: ParkedTab| candidate(t.document, t.draft@))
}

/// Every group's documents, group by group.
pub open spec fn candidates(groups: Seq<GroupDocs>) -> Seq<Candidate>
    decreases groups.len(),
{
    if groups.len() == 0 {
        Seq::empty()
    } else {
        candidates(groups.drop_last()) + group_candidates(groups.last())
    }
}

pub open spec fn has_path(ws: Seq<WriteView>, path: Seq<char>) -> bool {
    exists|k: int| 0 <= k < ws.len() && #[trigger] ws[k].path == path
}

/// The writes the documents come to: each wanted one, unless its path is
/// already written — a file open on both sides has one draft.
pub open spec fn chosen(cs: Seq<Candidate>) -> Seq<WriteView>
    decreases cs.len(),
{
    if cs.len() == 0 {
        Seq::empty()
    } else {
        let w = chosen(cs.drop_last());
        let c = cs.last();
        if c.wanted && !has_path(w, c.path) {
            w.push(WriteView { path: c.path, text: c.text })
        } else {
            w
        }
    }
}

/// Whether one of the writes already goes to `path`.
fn writes_to(writes: &Vec<Write>, path: &str) -> (r: bool)
    ensures
        r == has_path(write_views(writes@), path@),
{
    let mut i: usize = 0;
    while i < writes.len()
        invariant
            i <= writes.len(),
            forall|k: int| 0 <= k < i ==> writes@[k].path@ != path@,
        decreases writes.len() - i,
    {
        if same_text(writes[i].path.as_str(), path) {
            assert(write_views(writes@)[i as int].path == path@);
            return true;
        }
        i = i + 1;
    }
    assert forall|k: int| 0 <= k < write_views(writes@).len() implies #[trigger] write_views(writes@)[k].path != path@ by {
        assert(write_views(writes@)[k] == write_view(writes@[k]));
    }
    false
}

/// Look at one document: write it when it wants writing and its path is
/// not written yet.
fn consider(writes: &mut Vec<Write>, doc: &OpenDoc, draft: &str, Ghost(done): Ghost<Seq<Candidate>>)
    requires
        write_views(old(writes)@) == chosen(done),
    ensures
        write_views(final(writes)@) == chosen(done.push(candidate(*doc, draft@))),
{
    let c = Ghost(candidate(*doc, draft@));
    assert(done.push(c@).drop_last() =~= done);
    let wanted = !doc.read_only && !doc.expansion && !same_text(draft, doc.text.as_str());
    if wanted && !writes_to(writes, doc.path.as_str()) {
        let ghost before = writes@;
        writes.push(Write { path: owned(doc.path.as_str()), text: owned(draft) });
        assert(write_views(writes@) =~= write_views(before).push(WriteView { path: doc.path@, text: draft@ }));
    }
}

/// Every unsaved draft, the file in front in each group and every tab
/// parked behind it, as the writes to make before something runs: one per
/// path, in the order the groups are walked.
pub fn pending_writes(groups: &Vec<GroupDocs>) -> (writes: Vec<Write>)
    ensures
        write_views(writes@) == chosen(candidates(groups@)),
{
    let mut writes: Vec<Write> = Vec::new();
    let ghost mut done: Seq<Candidate> = Seq::empty();
    let mut i: usize = 0;
    while i < groups.len()
        invariant
            i <= groups.len(),
            done == candidates(groups@.take(i as int)),
            write_views(writes@) == chosen(done),
        decreases groups.len() - i,
    {
        let g = &groups[i];
        let ghost start = done;
        match &g.document {
            Some(d) => {
                consider(&mut writes, d, g.draft.as_str(), Ghost(done));
                proof {
                    done = done.push(candidate(*d, g.draft@));
                }
            },
            None => {},
        }
        let mut k: usize = 0;
        while k < g.parked.len()
            invariant
                k <= g.parked.len(),
                done == start + group_candidates(*g).take(
                    (if g.document is Some { 1int } else { 0int }) + k,
                ),
                write_views(writes@) == chosen(done),
            decreases g.parked.len() - k,
        {
            let t = &g.parked[k];
            let ghost head = if g.document is Some { 1int } else { 0int };
            consider(&mut writes, &t.document, t.draft.as_str(), Ghost(done));
            proof {
                let gc = group_candidates(*g);
                assert(gc[head + k] == candidate(t.document, t.draft@));
                assert(gc.take(head + k).push(gc[head + k]) =~= gc.take(head + k + 1));
                done = done.push(candidate(t.document, t.draft@));
            }
            k = k + 1;
        }
        proof {
            let gc = group_candidates(*g);
            let head = if g.document is Some { 1int } else { 0int };
            assert(gc.take(head + g.parked.len()) =~= gc);
            assert(groups@.take(i + 1).drop_last() =~= groups@.take(i as int));
            assert(groups@.take(i + 1).last() == groups@[i as int]);
        }
        i = i + 1;
    }
    assert(groups@.take(groups.len() as int) =~= groups@);
    writes
}

/// What the walk comes to, for every list of documents: no path is written
/// twice; every write is the draft of a document that wanted writing; and
/// every document that wanted writing has its path written.
pub proof fn lemma_pending_writes(cs: Seq<Candidate>)
    ensures
        forall|i: int, j: int|
            0 <= i < j < chosen(cs).len() ==> #[trigger] chosen(cs)[i].path != #[trigger] chosen(cs)[j].path,
        forall|k: int|
            0 <= k < chosen(cs).len() ==> exists|i: int|
                0 <= i < cs.len() && #[trigger] cs[i].wanted && cs[i].path == (#[trigger] chosen(cs)[k]).path
                    && cs[i].text == chosen(cs)[k].text,
        forall|i: int| 0 <= i < cs.len() && #[trigger] cs[i].wanted ==> has_path(chosen(cs), cs[i].path),
    decreases cs.len(),
{
    if cs.len() > 0 {
        let rest = cs.drop_last();
        lemma_pending_writes(rest);
        let w = chosen(rest);
        let c = cs.last();
        assert forall|k: int| 0 <= k < chosen(cs).len() implies exists|i: int|
            0 <= i < cs.len() && #[trigger] cs[i].wanted && cs[i].path == (#[trigger] chosen(cs)[k]).path
                && cs[i].text == chosen(cs)[k].text by {
            if k < w.len() {
                assert(chosen(cs)[k] == w[k]);
                let i = choose|i: int| 0 <= i < rest.len() && #[trigger] rest[i].wanted && rest[i].path == w[k].path
                    && rest[i].text == w[k].text;
                assert(cs[i] == rest[i]);
                assert(cs[i].wanted && cs[i].path == chosen(cs)[k].path && cs[i].text == chosen(cs)[k].text);
            } else {
                let last = cs.len() - 1;
                assert(cs[last] == c);
                assert(cs[last].wanted && cs[last].path == chosen(cs)[k].path && cs[last].text == chosen(cs)[k].text);
            }
        }
        assert forall|i: int| 0 <= i < cs.len() && #[trigger] cs[i].wanted implies has_path(chosen(cs), cs[i].path) by {
            if i < rest.len() {
                assert(cs[i] == rest[i]);
                let k = choose|k: int| 0 <= k < w.len() && #[trigger] w[k].path == rest[i].path;
                assert(chosen(cs)[k] == w[k]);
            } else if c.wanted && !has_path(w, c.path) {
                assert(chosen(cs)[w.len() as int].path == c.path);
            }
        }
    } else {
        assert(chosen(cs) =~= Seq::<WriteView>::empty());
    }
}

/// `new` is `old` once `text` went to `path`: the on-disk text of that
/// path's document is the text written, and nothing else changes.
pub open spec fn is_written(new: OpenDoc, old: OpenDoc, path: Seq<char>, text: Seq<char>) -> bool {
    &&& new.path == old.path
    &&& new.read_only == old.read_only
    &&& new.expansion == old.expansion
    &&& new.language == old.language
    &&& if old.path@ == path { new.text@ == text } else { new.text == old.text }
}

pub open spec fn tab_written(new: ParkedTab, old: ParkedTab, path: Seq<char>, text: Seq<char>) -> bool {
    new.draft == old.draft && is_written(new.document, old.document, path, text)
}

/// Every copy of the document at `path`, in front or parked, in every
/// group, now holds `text` as what is on disk; drafts are never touched.
pub open spec fn group_written(new: GroupDocs, old: GroupDocs, path: Seq<char>, text: Seq<char>) -> bool {
    &&& new.draft == old.draft
    &&& match (new.document, old.document) {
        (Some(n), Some(o)) => is_written(n, o, path, text),
        (None, None) => true,
        _ => false,
    }
    &&& new.parked.len() == old.parked.len()
    &&& forall|j: int| 0 <= j < new.parked.len() ==> tab_written(#[trigger] new.parked@[j], old.parked@[j], path, text)
}

/// A write clears the dirty dot of what it wrote: once `text` went to
/// `path`, a document there — in front or parked — whose draft is that
/// text no longer wants writing. The dot is the draft against what is on
/// disk, so it clears by itself and lights again at the next key.
pub proof fn lemma_written_is_clean(new: GroupDocs, old: GroupDocs, path: Seq<char>, text: Seq<char>)
    requires
        group_written(new, old, path, text),
    ensures
        new.document matches Some(d) ==> (d.path@ == path && new.draft@ == text ==> !wants_write(d, new.draft@)),
        forall|j: int|
            0 <= j < new.parked.len() && (#[trigger] new.parked@[j]).document.path@ == path && new.parked@[j].draft@ == text
                ==> !wants_write(new.parked@[j].document, new.parked@[j].draft@),
{
    assert forall|j: int|
        0 <= j < new.parked.len() && (#[trigger] new.parked@[j]).document.path@ == path && new.parked@[j].draft@ == text
            implies !wants_write(new.parked@[j].document, new.parked@[j].draft@) by {
        assert(tab_written(new.parked@[j], old.parked@[j], path, text));
    }
}

/// One document, once `text` went to `path`.
pub fn mark_written(doc: OpenDoc, path: &str, text: &str) -> (out: OpenDoc)
    ensures
        is_written(out, doc, path@, text@),
{
    if same_text(doc.path.as_str(), path) {
        OpenDoc { path: doc.path, text: owned(text), read_only: doc.read_only, expansion: doc.expansion, language: doc.language }
    } else {
        doc
    }
}

fn mark_tabs(tabs: Vec<ParkedTab>, path: &str, text: &str) -> (out: Vec<ParkedTab>)
    ensures
        out.len() == tabs.len(),
        forall|j: int| 0 <= j < out.len() ==> tab_written(#[trigger] out@[j], tabs@[j], path@, text@),
{
    let ghost old = tabs@;
    let mut rest = tabs;
    let mut out: Vec<ParkedTab> = Vec::new();
    while rest.len() > 0
        invariant
            out.len() + rest.len() == old.len(),
            forall|j: int| 0 <= j < out.len() ==> tab_written(#[trigger] out@[j], old[j], path@, text@),
            forall|j: int| 0 <= j < rest.len() ==> #[trigger] rest@[j] == old[out.len() + j],
        decreases rest.len(),
    {
        let ghost before = rest@;
        let t = rest.remove(0);
        assert(t == old[out.len() as int]);
        assert forall|j: int| 0 <= j < rest.len() implies #[trigger] rest@[j] == old[out.len() + 1 + j] by {
            assert(rest@[j] == before[j + 1]);
        }
        let ParkedTab { document, draft } = t;
        out.push(ParkedTab { document: mark_written(document, path, text), draft });
    }
    out
}

/// The write of `text` to `path` went through: every copy of that
/// document, in both groups, in front or parked, now holds these bytes as
/// what is on disk. The drafts are left alone, so a key pressed while the
/// write was out is not replaced by the disk's copy.
pub fn record_written(groups: &mut Vec<GroupDocs>, path: &str, text: &str)
    ensures
        final(groups).len() == old(groups).len(),
        forall|i: int| 0 <= i < final(groups).len() ==> group_written(#[trigger] final(groups)@[i], old(groups)@[i], path@, text@),
{
    let mut rest: Vec<GroupDocs> = Vec::new();
    std::mem::swap(groups, &mut rest);
    let ghost old = rest@;
    while rest.len() > 0
        invariant
            groups.len() + rest.len() == old.len(),
            forall|j: int| 0 <= j < groups.len() ==> group_written(#[trigger] groups@[j], old[j], path@, text@),
            forall|j: int| 0 <= j < rest.len() ==> #[trigger] rest@[j] == old[groups.len() + j],
        decreases rest.len(),
    {
        let ghost before = rest@;
        let g = rest.remove(0);
        assert(g == old[groups.len() as int]);
        assert forall|j: int| 0 <= j < rest.len() implies #[trigger] rest@[j] == old[groups.len() + 1 + j] by {
            assert(rest@[j] == before[j + 1]);
        }
        let GroupDocs { document, draft, parked } = g;
        let document = match document {
            Some(d) => Some(mark_written(d, path, text)),
            None => None,
        };
        let parked = mark_tabs(parked, path, text);
        groups.push(GroupDocs { document, draft, parked });
    }
}

/// What auto-save writes, a beat after typing stopped: the draft in front,
/// unless there is no document, it is not ours to write, or it is already
/// what is on disk.
pub fn autosave_file(document: &Option<OpenDoc>, draft: &str) -> (w: Option<Write>)
    ensures
        match *document {
            Some(d) => if d.read_only || draft@ == d.text@ {
                w is None
            } else {
                w matches Some(w) && w.path@ == d.path@ && w.text@ == draft@
            },
            None => w is None,
        },
{
    match document {
        Some(d) => {
            if d.read_only || same_text(draft, d.text.as_str()) {
                None
            } else {
                Some(Write { path: owned(d.path.as_str()), text: owned(draft) })
            }
        },
        None => None,
    }
}

/// What Ctrl+S writes: the draft, to the active path — nothing for a
/// dependency's source, and nothing with no file active.
pub fn save_file(document: &Option<OpenDoc>, active: Option<&str>, draft: &str) -> (w: Option<Write>)
    ensures
        (*document matches Some(d) && d.read_only) ==> w is None,
        !(*document matches Some(d) && d.read_only) ==> match active {
            Some(p) => w matches Some(w) && w.path@ == p@ && w.text@ == draft@,
            None => w is None,
        },
{
    let read_only = match document {
        Some(d) => d.read_only,
        None => false,
    };
    if read_only {
        return None;
    }
    match active {
        Some(p) => Some(Write { path: owned(p), text: owned(draft) }),
        None => None,
    }
}

/// `c` lowered, if it is an ASCII capital.
pub open spec fn ascii_lower(c: char) -> int {
    if 65 <= (c as u32) <= 90 { (c as u32) + 32 } else { c as u32 as int }
}

/// Two texts the same but for the case of ASCII letters.
pub open spec fn same_ignoring_ascii_case(a: Seq<char>, b: Seq<char>) -> bool {
    a.len() == b.len() && forall|i: int| 0 <= i < a.len() ==> ascii_lower(#[trigger] a[i]) == ascii_lower(b[i])
}

fn lower_code(c: char) -> (r: u32)
    ensures
        r == ascii_lower(c),
{
    let n = c as u32;
    if 65 <= n && n <= 90 { n + 32 } else { n }
}

/// Whether two texts are the same but for the case of ASCII letters.
pub fn eq_ignore_ascii_case(a: &str, b: &str) -> (r: bool)
    ensures
        r == same_ignoring_ascii_case(a@, b@),
{
    let x = chars_of(a);
    let y = chars_of(b);
    if x.len() != y.len() {
        return false;
    }
    let mut i: usize = 0;
    while i < x.len()
        invariant
            x.len() == y.len(),
            x@ == a@,
            y@ == b@,
            i <= x.len(),
            forall|k: int| 0 <= k < i ==> ascii_lower(#[trigger] x@[k]) == ascii_lower(y@[k]),
        decreases x.len() - i,
    {
        if lower_code(x[i]) != lower_code(y[i]) {
            return false;
        }
        i = i + 1;
    }
    true
}

/// Whether a document is Rust: the backend named the grammar `Rust`, in
/// any case, or the path ends in `.rs`.
pub open spec fn is_rust_document(doc: OpenDoc) -> bool {
    (doc.language matches Some(l) && same_ignoring_ascii_case(l@, "rust"@)) || is_rust(doc.path@)
}

/// What a save with formatting comes to.
#[derive(Clone, Copy, PartialEq, Eq, Debug, Structural)]
pub enum SaveRoute {
    /// No document, or not ours to write.
    Nothing,
    /// Not Rust: saved as it is.
    Save,
    /// Through rustfmt first; its failure never blocks the save.
    FormatThenSave,
}

/// Format with rustfmt, then save — for Rust; anything else is saved as
/// it is, and a dependency's source not at all.
pub fn format_then_save(document: &Option<OpenDoc>) -> (r: SaveRoute)
    ensures
        r == match *document {
            Some(d) => if d.read_only {
                SaveRoute::Nothing
            } else if is_rust_document(d) {
                SaveRoute::FormatThenSave
            } else {
                SaveRoute::Save
            },
            None => SaveRoute::Nothing,
        },
{
    match document {
        Some(d) => {
            if d.read_only {
                return SaveRoute::Nothing;
            }
            let by_name = match &d.language {
                Some(l) => eq_ignore_ascii_case(l.as_str(), "rust"),
                None => false,
            };
            if by_name || is_rust_path(d.path.as_str()) {
                SaveRoute::FormatThenSave
            } else {
                SaveRoute::Save
            }
        },
        None => SaveRoute::Nothing,
    }
}

} // verus!
