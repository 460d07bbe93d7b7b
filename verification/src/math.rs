//! The math toolbox's sheet: read from the project, saved as it is typed.

use vstd::prelude::*;

use crate::text::{is_blank, owned, same_text, texts, trim};

verus! {

/// What opening a project does to the sheet in the window.
pub enum SheetLoad {
    /// Already this project's sheet, or nothing can be read now: as it is.
    Keep,
    /// No project: the sheet in the window stays, belonging to none.
    Forget,
    /// Read this project's sheet.
    Ask(String),
}

/// The open project's sheet, read once per project. With no project the
/// sheet in the window is kept as it is, belonging to none.
pub fn load_math_sheet(root: Option<&str>, home: Option<&str>, backend: bool) -> (l: SheetLoad)
    ensures
        match (root, home) {
            (Some(r), Some(h)) if r@ == h@ => l is Keep,
            (None, None) => l is Keep,
            (None, Some(_)) => l is Forget,
            (Some(r), _) => if backend { l matches SheetLoad::Ask(a) && a@ == r@ } else { l is Keep },
        },
{
    match (root, home) {
        (Some(r), Some(h)) => {
            if same_text(r, h) {
                SheetLoad::Keep
            } else if backend {
                SheetLoad::Ask(owned(r))
            } else {
                SheetLoad::Keep
            }
        },
        (None, None) => SheetLoad::Keep,
        (None, Some(_)) => SheetLoad::Forget,
        (Some(r), None) => {
            if backend {
                SheetLoad::Ask(owned(r))
            } else {
                SheetLoad::Keep
            }
        },
    }
}

/// Whether a sheet read for `asked` still belongs: the project did not
/// change while it was read.
pub fn sheet_still_wanted(root: Option<&str>, asked: &str) -> (b: bool)
    ensures
        b == (root matches Some(r) && r@ == asked@),
{
    match root {
        Some(r) => same_text(r, asked),
        None => false,
    }
}

/// One row's text changed; the answer is whether it did, which is when
/// the sheet is saved.
pub fn set_math_row(rows: &mut Vec<String>, index: usize, text: &str) -> (changed: bool)
    ensures
        changed == (index < old(rows).len() && old(rows)@[index as int]@ != text@),
        final(rows).len() == old(rows).len(),
        changed ==> final(rows)@[index as int]@ == text@,
        forall|i: int| 0 <= i < final(rows).len() && !(changed && i == index) ==> #[trigger] final(rows)@[i] == old(rows)@[i],
{
    if index < rows.len() && !same_text(rows[index].as_str(), text) {
        rows.set(index, owned(text));
        true
    } else {
        false
    }
}

/// The rows' hidden flags once row `index` is toggled: the list reaches
/// it, the rows it did not reach shown, and that row flipped.
pub open spec fn toggled(hidden: Seq<bool>, index: int) -> Seq<bool> {
    let len = if index < hidden.len() { hidden.len() as int } else { index + 1 };
    Seq::new(len as nat, |i: int| if i == index { !(i < hidden.len() && hidden[i]) } else { i < hidden.len() && hidden[i] })
}

/// Show or hide a row's drawing; a row the list does not reach yet is
/// shown until now.
pub fn toggle_math_row(hidden: &mut Vec<bool>, index: usize)
    requires
        index < usize::MAX,
    ensures
        final(hidden)@ == toggled(old(hidden)@, index as int),
{
    let ghost before = hidden@;
    while hidden.len() <= index
        invariant
            index < usize::MAX,
            hidden.len() >= before.len(),
            hidden.len() == before.len() || hidden.len() <= index + 1,
            forall|i: int| 0 <= i < hidden.len() ==> #[trigger] hidden@[i] == (i < before.len() && before[i]),
        decreases index + 1 - hidden.len(),
    {
        hidden.push(false);
    }
    let flipped = !hidden[index];
    hidden.set(index, flipped);
    assert(hidden@ =~= toggled(before, index as int));
}

/// Toggling a row twice leaves it as it was, for a row the list reaches.
pub proof fn lemma_toggle_twice(hidden: Seq<bool>, index: int)
    requires
        0 <= index < hidden.len(),
    ensures
        toggled(toggled(hidden, index), index) == hidden,
{
    assert(toggled(toggled(hidden, index), index) =~= hidden);
}

/// Whether replacing the sheet would lose work nobody else has: a row with
/// something in it, on a sheet that is none of the examples.
pub open spec fn is_own_work(rows: Seq<Seq<char>>, examples: Seq<Seq<Seq<char>>>) -> bool {
    &&& exists|i: int| 0 <= i < rows.len() && trim(#[trigger] rows[i]).len() > 0
    &&& forall|e: int| 0 <= e < examples.len() ==> #[trigger] examples[e] != rows
}

fn same_rows(a: &Vec<String>, b: &Vec<String>) -> (r: bool)
    ensures
        r == (texts(a@) == texts(b@)),
{
    if a.len() != b.len() {
        return false;
    }
    let mut i: usize = 0;
    while i < a.len()
        invariant
            a.len() == b.len(),
            i <= a.len(),
            forall|k: int| 0 <= k < i ==> #[trigger] a@[k]@ == b@[k]@,
        decreases a.len() - i,
    {
        if !same_text(a[i].as_str(), b[i].as_str()) {
            assert(texts(a@)[i as int] != texts(b@)[i as int]);
            return false;
        }
        i = i + 1;
    }
    assert(texts(a@) =~= texts(b@));
    true
}

/// Replacing the sheet with an example asks first when that would lose
/// rows nobody else has.
pub fn own_work(rows: &Vec<String>, examples: &Vec<Vec<String>>) -> (b: bool)
    ensures
        b == is_own_work(texts(rows@), examples@.map_values(|e: Vec<String>| texts(e@))),
{
    let ghost ex = examples@.map_values(|e: Vec<String>| texts(e@));
    let mut i: usize = 0;
    let mut filled = false;
    while i < rows.len()
        invariant
            i <= rows.len(),
            filled == exists|k: int| 0 <= k < i && trim(#[trigger] texts(rows@)[k]).len() > 0,
        decreases rows.len() - i,
    {
        if !is_blank(rows[i].as_str()) {
            assert(trim(texts(rows@)[i as int]).len() > 0);
            filled = true;
        }
        i = i + 1;
    }
    if !filled {
        return false;
    }
    let mut e: usize = 0;
    while e < examples.len()
        invariant
            e <= examples.len(),
            ex == examples@.map_values(|e: Vec<String>| texts(e@)),
            forall|k: int| 0 <= k < e ==> #[trigger] ex[k] != texts(rows@),
        decreases examples.len() - e,
    {
        if same_rows(&examples[e], rows) {
            assert(ex[e as int] == texts(rows@));
            return false;
        }
        e = e + 1;
    }
    true
}

/// Select a row, or none; the answer is whether the selection moved, which
/// stops any stepping and shows the row whole.
pub fn select_math_row(selected: &mut Option<usize>, index: Option<usize>) -> (moved: bool)
    ensures
        moved == (*old(selected) != index),
        *final(selected) == index,
{
    if *selected != index {
        *selected = index;
        true
    } else {
        false
    }
}

} // verus!
