//! Selecting among templates. The picker that asks a person is the
//! caller's; the library says what it is shown and what its answer means.

use crate::path::file_stem;
use crate::store::templates_view;
use crate::template::{Template, TemplateView};
use vstd::prelude::*;

verus! {

/// What the picker answered.
#[derive(Debug)]
pub enum Picked {
    /// The person gave up.
    Aborted,
    /// The indices of the entries that the person chose, in their order.
    Chosen(Vec<usize>),
}

/// A [`Picked`] as contracts see it.
pub enum PickedView {
    Aborted,
    Chosen(Seq<int>),
}

impl View for Picked {
    type V = PickedView;

    open spec fn view(&self) -> PickedView {
        match self {
            Picked::Aborted => PickedView::Aborted,
            Picked::Chosen(indices) => PickedView::Chosen(
                Seq::new(indices@.len(), |i: int| indices@[i] as int),
            ),
        }
    }
}

/// A selection among templates.
#[derive(Debug)]
pub struct Search {
    pub items: Vec<Template>,
}

/// Those of `items` that the first `n` of `indices` point at, in the order
/// of the indices. An index that points at nothing chooses nothing.
pub open spec fn chosen(items: Seq<TemplateView>, indices: Seq<int>, n: int) -> Seq<TemplateView>
    decreases n,
{
    if n <= 0 {
        Seq::empty()
    } else {
        let before = chosen(items, indices, n - 1);
        let index = indices[n - 1];
        if 0 <= index < items.len() {
            before.push(items[index])
        } else {
            before
        }
    }
}

/// What a selection among `items` gives: all of them where there is
/// nothing to choose between, nothing where the person gave up, and else
/// what the person chose.
pub open spec fn selection(items: Seq<TemplateView>, picked: PickedView) -> Seq<TemplateView> {
    if items.len() <= 1 {
        items
    } else {
        match picked {
            PickedView::Aborted => Seq::empty(),
            PickedView::Chosen(indices) => chosen(items, indices, indices.len() as int),
        }
    }
}

/// The name that the picker shows for the template at `path`: its stem, or
/// nothing where it has none.
pub open spec fn display_name(path: Seq<char>) -> Seq<char> {
    match file_stem(path) {
        Some(stem) => stem,
        None => Seq::empty(),
    }
}

/// The command whose output the picker shows beside the template at `path`.
pub open spec fn preview_command(path: Seq<char>) -> Seq<char> {
    "cat \""@ + path + "\""@
}

impl Search {
    /// A selection among `items`.
    pub fn with(items: Vec<Template>) -> (search: Search)
        ensures
            search.items == items,
    {
        Search { items }
    }

    /// Tells whether there is anything to choose between: with fewer than
    /// two items the picker is not asked.
    pub fn needs_picker(&self) -> (asked: bool)
        ensures
            asked == (self.items@.len() > 1),
    {
        self.items.len() > 1
    }

    /// What the picker is shown: for each item, in their order, its name
    /// and the command that previews it.
    pub fn entries(&self) -> (shown: Vec<(String, String)>)
        ensures
            shown@.len() == self.items@.len(),
            forall|i: int|
                0 <= i < shown@.len() ==> (#[trigger] shown@[i]).0@ == display_name(
                    self.items@[i].path@,
                ) && shown@[i].1@ == preview_command(self.items@[i].path@),
    {
        let mut shown: Vec<(String, String)> = Vec::new();
        let mut i: usize = 0;
        while i < self.items.len()
            invariant
                i <= self.items@.len(),
                shown@.len() == i,
                forall|j: int|
                    0 <= j < i ==> (#[trigger] shown@[j]).0@ == display_name(self.items@[j].path@)
                        && shown@[j].1@ == preview_command(self.items@[j].path@),
            decreases self.items.len() - i,
        {
            let name = match self.items[i].name() {
                Ok(stem) => stem,
                Err(_) => String::new(),
            };
            let preview = String::from_str("cat \"").concat(self.items[i].path.as_str()).concat(
                "\"",
            );
            shown.push((name, preview));
            i += 1;
        }
        shown
    }

    /// The items that were selected, given what the picker answered.
    pub fn run(&self, picked: &Picked) -> (selected: Vec<Template>)
        ensures
            templates_view(selected@) == selection(templates_view(self.items@), picked@),
    {
        let ghost items = templates_view(self.items@);
        let mut selected: Vec<Template> = Vec::new();
        if self.items.len() <= 1 {
            let mut i: usize = 0;
            while i < self.items.len()
                invariant
                    i <= self.items@.len(),
                    items == templates_view(self.items@),
                    templates_view(selected@) == items.take(i as int),
                decreases self.items.len() - i,
            {
                let ghost before = templates_view(selected@);
                selected.push(self.items[i].duplicate());
                assert(templates_view(selected@) =~= before.push(items[i as int]));
                assert(before.push(items[i as int]) =~= items.take(i + 1));
                i += 1;
            }
            assert(items.take(i as int) =~= items);
            return selected;
        }
        match picked {
            Picked::Aborted => {
                assert(templates_view(selected@) =~= Seq::<TemplateView>::empty());
                selected
            },
            Picked::Chosen(indices) => {
                let ghost wanted = Seq::new(indices@.len(), |i: int| indices@[i] as int);
                assert(templates_view(selected@) =~= chosen(items, wanted, 0));
                let mut k: usize = 0;
                while k < indices.len()
                    invariant
                        k <= indices@.len(),
                        items == templates_view(self.items@),
                        wanted == Seq::new(indices@.len(), |i: int| indices@[i] as int),
                        templates_view(selected@) == chosen(items, wanted, k as int),
                    decreases indices.len() - k,
                {
                    let index = indices[k];
                    let ghost before = templates_view(selected@);
                    if index < self.items.len() {
                        selected.push(self.items[index].duplicate());
                        assert(templates_view(selected@) =~= before.push(items[index as int]));
                    }
                    k += 1;
                }
                selected
            },
        }
    }
}

} // verus!
