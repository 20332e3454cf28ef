//! The values that a template's variables take.

use vstd::prelude::*;

verus! {

/// The value of a variable: nothing, a text, or a list of texts.
#[derive(Clone, Debug, PartialEq, Eq)]
pub enum Value {
    Null,
    String(String),
    Sequence(Vec<String>),
}

/// A [`Value`] as contracts see it.
pub enum ValueView {
    Null,
    String(Seq<char>),
    Sequence(Seq<Seq<char>>),
}

/// The texts of `items`, each as its characters.
pub open spec fn texts(items: Seq<String>) -> Seq<Seq<char>> {
    Seq::new(items.len(), |i: int| items[i]@)
}

impl View for Value {
    type V = ValueView;

    open spec fn view(&self) -> ValueView {
        match self {
            Value::Null => ValueView::Null,
            Value::String(text) => ValueView::String(text@),
            Value::Sequence(items) => ValueView::Sequence(texts(items@)),
        }
    }
}

/// A header value as the decoder hands it over, before the library decides
/// whether it takes it.
#[derive(Clone, Debug, PartialEq, Eq)]
pub enum Decoded {
    /// The null value.
    Null,
    /// A string.
    Text(String),
    /// A sequence; an item is `None` where it is not a string.
    List(Vec<Option<String>>),
    /// A boolean, a number, a mapping or a tagged value.
    Other,
}

/// A [`Decoded`] as contracts see it.
pub enum DecodedView {
    Null,
    Text(Seq<char>),
    List(Seq<Option<Seq<char>>>),
    Other,
}

/// The item `item` as its characters, where it is a string.
pub open spec fn item_view(item: Option<String>) -> Option<Seq<char>> {
    match item {
        Some(text) => Some(text@),
        None => None,
    }
}

impl View for Decoded {
    type V = DecodedView;

    open spec fn view(&self) -> DecodedView {
        match self {
            Decoded::Null => DecodedView::Null,
            Decoded::Text(text) => DecodedView::Text(text@),
            Decoded::List(items) => DecodedView::List(
                Seq::new(items@.len(), |i: int| item_view(items@[i])),
            ),
            Decoded::Other => DecodedView::Other,
        }
    }
}

/// Every item of `items` is a string.
pub open spec fn all_strings(items: Seq<Option<Seq<char>>>) -> bool {
    forall|i: int| 0 <= i < items.len() ==> items[i] is Some
}

/// The value that a decoded header value stands for: null, a string, or a
/// sequence whose items are all strings. Anything else stands for none.
pub open spec fn accepted(decoded: DecodedView) -> Option<ValueView> {
    match decoded {
        DecodedView::Null => Some(ValueView::Null),
        DecodedView::Text(text) => Some(ValueView::String(text)),
        DecodedView::List(items) => if all_strings(items) {
            Some(ValueView::Sequence(Seq::new(items.len(), |i: int| items[i]->0)))
        } else {
            None
        },
        DecodedView::Other => None,
    }
}

impl Value {
    /// Takes a decoded header value where it has one of the three shapes of a
    /// [`Value`], and refuses it otherwise.
    pub fn from_decoded(decoded: &Decoded) -> (value: Option<Value>)
        ensures
            match value {
                Some(v) => accepted(decoded@) == Some(v@),
                None => accepted(decoded@) is None,
            },
    {
        match decoded {
            Decoded::Null => Some(Value::Null),
            Decoded::Text(text) => Some(Value::String(text.clone())),
            Decoded::List(items) => {
                let ghost seen = Seq::new(items@.len(), |i: int| item_view(items@[i]));
                let mut out: Vec<String> = Vec::new();
                let mut i: usize = 0;
                while i < items.len()
                    invariant
                        i <= items.len(),
                        seen == Seq::new(items@.len(), |i: int| item_view(items@[i])),
                        decoded@ == DecodedView::List(seen),
                        out@.len() == i,
                        forall|j: int| 0 <= j < i ==> seen[j] == Some(#[trigger] out@[j]@),
                    decreases items.len() - i,
                {
                    match &items[i] {
                        Some(text) => out.push(text.clone()),
                        None => {
                            assert(seen[i as int] is None);
                            return None;
                        },
                    }
                    i += 1;
                }
                assert(all_strings(seen)) by {
                    assert forall|j: int| 0 <= j < seen.len() implies seen[j] is Some by {
                        assert(seen[j] == Some(out@[j]@));
                    }
                }
                assert(texts(out@) =~= Seq::new(seen.len(), |i: int| seen[i]->0)) by {
                    assert forall|j: int| 0 <= j < out@.len() implies out@[j]@ == seen[j]->0 by {
                        assert(seen[j] == Some(out@[j]@));
                    }
                }
                Some(Value::Sequence(out))
            },
            Decoded::Other => None,
        }
    }

    /// A copy of this value.
    pub fn duplicate(&self) -> (copy: Value)
        ensures
            copy@ == self@,
    {
        match self {
            Value::Null => Value::Null,
            Value::String(text) => Value::String(text.clone()),
            Value::Sequence(items) => {
                let mut out: Vec<String> = Vec::new();
                let mut i: usize = 0;
                while i < items.len()
                    invariant
                        i <= items.len(),
                        out@.len() == i,
                        forall|j: int| 0 <= j < i ==> out@[j]@ == items@[j]@,
                    decreases items.len() - i,
                {
                    out.push(items[i].clone());
                    i += 1;
                }
                assert(texts(out@) =~= texts(items@));
                Value::Sequence(out)
            },
        }
    }
}

} // verus!
