//! Copies that are equal to what they were made from.

use vstd::prelude::*;

use crate::json::Json;
use crate::time::Timestamp;

verus! {

/// A value of which an equal copy can be made.
pub trait Dup: DeepView + Sized {
    /// A copy that holds what `self` holds.
    fn dup(&self) -> (r: Self)
        ensures
            r.deep_view() == self.deep_view(),
    ;
}

impl Dup for String {
    fn dup(&self) -> (r: String) {
        self.clone()
    }
}

impl Dup for bool {
    fn dup(&self) -> (r: bool) {
        *self
    }
}

impl Dup for u8 {
    fn dup(&self) -> (r: u8) {
        *self
    }
}

impl Dup for u32 {
    fn dup(&self) -> (r: u32) {
        *self
    }
}

impl Dup for i32 {
    fn dup(&self) -> (r: i32) {
        *self
    }
}

impl Dup for i64 {
    fn dup(&self) -> (r: i64) {
        *self
    }
}

impl Dup for Timestamp {
    fn dup(&self) -> (r: Timestamp) {
        *self
    }
}

impl Dup for Json {
    fn dup(&self) -> (r: Json) {
        self.copy()
    }
}

impl<T: Dup> Dup for Option<T> {
    fn dup(&self) -> (r: Option<T>) {
        match self {
            Some(x) => Some(x.dup()),
            None => None,
        }
    }
}

impl<A: Dup, B: Dup> Dup for (A, B) {
    fn dup(&self) -> (r: (A, B)) {
        (self.0.dup(), self.1.dup())
    }
}

impl<T: Dup> Dup for Vec<T> {
    fn dup(&self) -> (r: Vec<T>) {
        let mut r: Vec<T> = Vec::new();
        for i in 0..self.len()
            invariant
                r.deep_view() == self.deep_view().take(i as int),
        {
            let ghost before = r.deep_view();
            let x = self[i].dup();
            r.push(x);
            assert(r.deep_view() =~= before.push(x.deep_view()));
            assert(self.deep_view().take(i + 1) =~= self.deep_view().take(i as int).push(
                self@[i as int].deep_view(),
            ));
        }
        assert(self.deep_view().take(self@.len() as int) =~= self.deep_view());
        r
    }
}

/// Takes the first value out of a list.
pub fn take_first<T: DeepView>(items: &mut Vec<T>) -> (r: T)
    requires
        old(items)@.len() > 0,
    ensures
        r.deep_view() == old(items).deep_view()[0],
        final(items).deep_view() == old(items).deep_view().drop_first(),
        final(items)@.len() == old(items)@.len() - 1,
{
    let ghost before = *items;
    let x = items.remove(0);
    assert(x.deep_view() == before.deep_view()[0]);
    assert forall|i: int| 0 <= i < items@.len() implies #[trigger] items.deep_view()[i]
        == before.deep_view().drop_first()[i] by {
        assert(items@[i] == before@[i + 1]);
        assert(before.deep_view()[i + 1] == before@[i + 1].deep_view());
    }
    assert(items.deep_view() =~= before.deep_view().drop_first());
    x
}

/// A copy of the text, where there is one; else the empty text.
pub fn text_or_empty(s: &Option<String>) -> (r: String)
    ensures
        r@ == (match s.deep_view() {
            Some(t) => t,
            None => Seq::empty(),
        }),
{
    match s {
        Some(t) => t.clone(),
        None => String::new(),
    }
}

/// A copy of the text, where there is one; else `other`.
pub fn text_or(s: &Option<String>, other: &str) -> (r: String)
    ensures
        r@ == (match s.deep_view() {
            Some(t) => t,
            None => other@,
        }),
{
    match s {
        Some(t) => t.clone(),
        None => other.to_owned(),
    }
}

} // verus!
