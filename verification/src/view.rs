//! What is shown of a value: a piece of text, or pieces in a row.

use vstd::prelude::*;
use vstd::string::StringExecFns;

verus! {

/// Something to show.
#[derive(Debug)]
pub enum ViewElement {
    /// Text within a line.
    Span(String),
    /// A line of text.
    Line(String),
    /// Pieces shown one after the other.
    Fragment(Vec<ViewElement>),
}

/// The mathematical shape of a [`ViewElement`].
pub ghost enum ViewShape {
    Span(Seq<char>),
    Line(Seq<char>),
    Fragment(Seq<ViewShape>),
}

/// The shape of a view element: its texts and the shapes of its pieces.
pub open spec fn view_shape(view: ViewElement) -> ViewShape
    decreases view,
{
    match view {
        ViewElement::Span(text) => ViewShape::Span(text@),
        ViewElement::Line(text) => ViewShape::Line(text@),
        ViewElement::Fragment(pieces) => ViewShape::Fragment(
            Seq::new(
                pieces.len() as nat,
                |i: int|
                    if 0 <= i < pieces.len() {
                        view_shape(pieces[i])
                    } else {
                        arbitrary()
                    },
            ),
        ),
    }
}

impl View for ViewElement {
    type V = ViewShape;

    open spec fn view(&self) -> ViewShape {
        view_shape(*self)
    }
}

impl ViewElement {
    /// Text within a line.
    pub fn span(text: &str) -> (view: Self)
        ensures
            view@ == ViewShape::Span(text@),
    {
        ViewElement::Span(String::from_str(text))
    }

    /// A line of text.
    pub fn line(text: &str) -> (view: Self)
        ensures
            view@ == ViewShape::Line(text@),
    {
        ViewElement::Line(String::from_str(text))
    }

    /// Another element that shows the same.
    pub fn duplicate(&self) -> (copy: Self)
        ensures
            copy@ == self@,
        decreases self,
    {
        match self {
            ViewElement::Span(text) => ViewElement::Span(text.clone()),
            ViewElement::Line(text) => ViewElement::Line(text.clone()),
            ViewElement::Fragment(pieces) => {
                let mut copies: Vec<ViewElement> = Vec::new();
                let mut i: usize = 0;
                while i < pieces.len()
                    invariant
                        i <= pieces.len(),
                        self matches ViewElement::Fragment(p) && p == pieces,
                        copies.len() == i,
                        forall|j: int| 0 <= j < i ==> (#[trigger] copies[j])@ == pieces[j]@,
                    decreases pieces.len() - i,
                {
                    copies.push(pieces[i].duplicate());
                    i += 1;
                }
                let copy = ViewElement::Fragment(copies);
                assert(copy@->Fragment_0 =~= self@->Fragment_0);
                copy
            },
        }
    }
}

impl Clone for ViewElement {
    fn clone(&self) -> (copy: Self)
        ensures
            copy@ == self@,
    {
        self.duplicate()
    }
}

/// A tree of view elements.
#[derive(Debug)]
pub enum ViewTree {
    Branch { view: ViewElement, children: Vec<ViewTree> },
    Leaf { view: ViewElement },
}

/// What can be shown.
pub trait Render {
    fn render(&self) -> ViewElement;
}

impl<T: Render> Render for Option<T> {
    /// What the value shows, or nothing where there is no value.
    fn render(&self) -> (view: ViewElement)
        ensures
            self is None ==> view@ == ViewShape::Fragment(Seq::empty()),
    {
        match self {
            Some(inner) => inner.render(),
            None => {
                let view = ViewElement::Fragment(Vec::new());
                assert(view@->Fragment_0 =~= Seq::empty());
                view
            },
        }
    }
}

impl Render for String {
    /// A line with the text.
    fn render(&self) -> (view: ViewElement)
        ensures
            view@ == ViewShape::Line(self@),
    {
        ViewElement::Line(self.clone())
    }
}

} // verus!
