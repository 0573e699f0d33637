//! The headline a human reads off a node.

use vstd::prelude::*;

use crate::flat::Number;
use crate::rows::Hist;
use crate::scalar::Scalar;
use crate::text;

verus! {

/// The headline a human reads off a node at a glance: one compact line for the graph view, the
/// display-dual of the numeric flattening. A batch renders its *last* element, matching the
/// observer's end-of-batch view.
pub trait Glance {
    open spec fn readable(&self) -> bool {
        arbitrary()
    }

    open spec fn headline(&self) -> Seq<char> {
        arbitrary()
    }

    fn glance(&self) -> (r: String)
        requires
            self.readable(),
        ensures
            r@ == self.headline(),
    ;
}

fn spelled(s: &str) -> (r: String)
    ensures
        r@ == s@,
{
    text::string_of(text::chars_of(s).as_slice())
}

impl<V: Scalar> Glance for Number<V> {
    open spec fn readable(&self) -> bool {
        true
    }

    open spec fn headline(&self) -> Seq<char> {
        self.0.spelled()
    }

    fn glance(&self) -> (r: String) {
        self.0.text()
    }
}

impl Glance for bool {
    open spec fn readable(&self) -> bool {
        true
    }

    open spec fn headline(&self) -> Seq<char> {
        if *self {
            "true"@
        } else {
            "false"@
        }
    }

    fn glance(&self) -> (r: String) {
        if *self {
            spelled("true")
        } else {
            spelled("false")
        }
    }
}

impl<T: Glance> Glance for Option<T> {
    open spec fn readable(&self) -> bool {
        match self {
            Some(t) => t.readable(),
            None => true,
        }
    }

    open spec fn headline(&self) -> Seq<char> {
        match self {
            Some(t) => t.headline(),
            None => "None"@,
        }
    }

    fn glance(&self) -> (r: String) {
        match self {
            Some(t) => t.glance(),
            None => spelled("None"),
        }
    }
}

/// The headline of a run: its last element's, or the empty run's own.
pub open spec fn run_headline<T: Glance>(run: Seq<T>) -> Seq<char> {
    if run.len() == 0 {
        "[]"@
    } else {
        run.last().headline()
    }
}

impl<'a, T: Glance> Glance for &'a [T] {
    open spec fn readable(&self) -> bool {
        self@.len() > 0 ==> self@.last().readable()
    }

    open spec fn headline(&self) -> Seq<char> {
        run_headline(self@)
    }

    fn glance(&self) -> (r: String) {
        let n: usize = (*self).len();
        if n == 0 {
            spelled("[]")
        } else {
            self[n - 1].glance()
        }
    }
}

impl<'t, T: Glance> Glance for Hist<'t, T> {
    open spec fn readable(&self) -> bool {
        self.wf() && (self.batch().len() > 0 ==> self.batch().last().readable())
    }

    open spec fn headline(&self) -> Seq<char> {
        run_headline(self.batch())
    }

    fn glance(&self) -> (r: String) {
        (*self).fresh().glance()
    }
}

} // verus!
