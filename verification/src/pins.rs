//! The images pinned on the screen, each shown in a window of its own and
//! known by an identifier.

use vstd::prelude::*;
use crate::annotation::{is_uuid_v4_text, new_uuid_string};
use crate::text::{chars_eq_str, chars_of};

verus! {

/// The pinned images' windows (of type `W`), each under an identifier that
/// no other pin has.
pub struct PinManager<W> {
    pins: Vec<(String, W)>,
}

/// The position of the pin with the identifier, if there is one.
pub open spec fn pin_index<W>(pins: Seq<(String, W)>, id: Seq<char>) -> Option<int> {
    if exists|i: int| 0 <= i < pins.len() && (#[trigger] pins[i]).0@ == id {
        Some(choose|i: int| 0 <= i < pins.len() && (#[trigger] pins[i]).0@ == id)
    } else {
        None
    }
}

/// No two pins share an identifier.
pub open spec fn unique_ids<W>(pins: Seq<(String, W)>) -> bool {
    forall|i: int, j: int| 0 <= i < pins.len() && 0 <= j < pins.len() && i != j ==> (#[trigger] pins[i]).0@
        != (#[trigger] pins[j]).0@
}

fn find_pin<W>(pins: &Vec<(String, W)>, id: &str) -> (r: Option<usize>)
    requires
        unique_ids(pins@),
    ensures
        match pin_index(pins@, id@) {
            Some(i) => r == Some(i as usize) && 0 <= i < pins@.len(),
            None => r is None,
        },
{
    let mut i: usize = 0;
    while i < pins.len()
        invariant
            i <= pins@.len(),
            unique_ids(pins@),
            forall|j: int| 0 <= j < i ==> (#[trigger] pins@[j]).0@ != id@,
        decreases pins@.len() - i,
    {
        let v = chars_of(pins[i].0.as_str());
        if chars_eq_str(&v, id) {
            proof {
                let c = choose|k: int| 0 <= k < pins@.len() && (#[trigger] pins@[k]).0@ == id@;
                assert(pins@[i as int].0@ == id@);
                if c != i {
                    assert(pins@[c].0@ != pins@[i as int].0@);
                }
            }
            return Some(i);
        }
        i = i + 1;
    }
    None
}

impl<W> PinManager<W> {
    /// The pins, oldest first, with their identifiers.
    pub closed spec fn spec_pins(&self) -> Seq<(String, W)> {
        self.pins@
    }

    /// Identifiers are unique.
    pub closed spec fn wf(&self) -> bool {
        unique_ids(self.pins@)
    }

    /// No pins.
    pub fn new() -> (m: Self)
        ensures
            m.wf(),
            m.spec_pins().len() == 0,
    {
        PinManager { pins: Vec::new() }
    }

    /// Whether any image is pinned.
    pub fn has_pins(&self) -> (b: bool)
        ensures
            b == (self.spec_pins().len() > 0),
    {
        self.pins.len() > 0
    }

    /// Keeps the window under the identifier, replacing the window a pin
    /// with that identifier had.
    pub fn insert(&mut self, id: String, window: W) -> (replaced: Option<W>)
        requires
            old(self).wf(),
        ensures
            final(self).wf(),
            match pin_index(old(self).spec_pins(), id@) {
                Some(i) => {
                    &&& replaced == Some(old(self).spec_pins()[i].1)
                    &&& final(self).spec_pins().len() == old(self).spec_pins().len()
                    &&& final(self).spec_pins()[i].0@ == id@
                    &&& final(self).spec_pins()[i].1 == window
                    &&& forall|j: int| 0 <= j < old(self).spec_pins().len() && j != i
                        ==> #[trigger] final(self).spec_pins()[j] == old(self).spec_pins()[j]
                },
                None => {
                    &&& replaced is None
                    &&& final(self).spec_pins().len() == old(self).spec_pins().len() + 1
                    &&& final(self).spec_pins().last().0@ == id@
                    &&& final(self).spec_pins().last().1 == window
                    &&& forall|j: int| 0 <= j < old(self).spec_pins().len()
                        ==> #[trigger] final(self).spec_pins()[j] == old(self).spec_pins()[j]
                },
            },
    {
        match find_pin(&self.pins, id.as_str()) {
            Some(i) => {
                let (old_id, old_window) = self.pins.remove(i);
                self.pins.insert(i, (id, window));
                proof {
                    assert forall|a: int, b: int| 0 <= a < self.pins@.len() && 0 <= b < self.pins@.len() && a != b
                        implies (#[trigger] self.pins@[a]).0@ != (#[trigger] self.pins@[b]).0@ by {
                        if a != i && b != i {
                            assert(self.pins@[a] == old(self).pins@[a]);
                            assert(self.pins@[b] == old(self).pins@[b]);
                        } else if a == i {
                            assert(self.pins@[b] == old(self).pins@[b]);
                        } else {
                            assert(self.pins@[a] == old(self).pins@[a]);
                        }
                    }
                }
                let _ = old_id;
                Some(old_window)
            },
            None => {
                self.pins.push((id, window));
                proof {
                    assert forall|a: int, b: int| 0 <= a < self.pins@.len() && 0 <= b < self.pins@.len() && a != b
                        implies (#[trigger] self.pins@[a]).0@ != (#[trigger] self.pins@[b]).0@ by {
                        let n = old(self).pins@.len() as int;
                        if a == n {
                            assert(self.pins@[b] == old(self).pins@[b]);
                        } else if b == n {
                            assert(self.pins@[a] == old(self).pins@[a]);
                        } else {
                            assert(self.pins@[a] == old(self).pins@[a]);
                            assert(self.pins@[b] == old(self).pins@[b]);
                        }
                    }
                }
                None
            },
        }
    }

    /// Pins a window under a fresh random identifier, which it returns (as
    /// `insert` does, should the identifier already be taken).
    pub fn spawn_pin(&mut self, window: W) -> (id: String)
        requires
            old(self).wf(),
        ensures
            final(self).wf(),
            is_uuid_v4_text(id@),
            pin_index(final(self).spec_pins(), id@) is Some,
            final(self).spec_pins().len() >= old(self).spec_pins().len(),
    {
        let id = new_uuid_string();
        let key = id.clone();
        let _ = self.insert(key, window);
        proof {
            let ps = self.spec_pins();
            match pin_index(old(self).spec_pins(), id@) {
                Some(i) => { assert(ps[i].0@ == id@); },
                None => { assert(ps[ps.len() - 1].0@ == id@); },
            }
        }
        id
    }

    /// Takes the pin with the identifier away, giving back its window.
    pub fn remove(&mut self, id: &str) -> (w: Option<W>)
        requires
            old(self).wf(),
        ensures
            final(self).wf(),
            match pin_index(old(self).spec_pins(), id@) {
                Some(i) => w == Some(old(self).spec_pins()[i].1) && final(self).spec_pins()
                    == old(self).spec_pins().remove(i),
                None => w is None && final(self).spec_pins() == old(self).spec_pins(),
            },
    {
        match find_pin(&self.pins, id) {
            Some(i) => {
                let (_, window) = self.pins.remove(i);
                proof {
                    assert forall|a: int, b: int| 0 <= a < self.pins@.len() && 0 <= b < self.pins@.len() && a != b
                        implies (#[trigger] self.pins@[a]).0@ != (#[trigger] self.pins@[b]).0@ by {
                        let oa = if a < i { a } else { a + 1 };
                        let ob = if b < i { b } else { b + 1 };
                        assert(self.pins@[a] == old(self).pins@[oa]);
                        assert(self.pins@[b] == old(self).pins@[ob]);
                    }
                }
                Some(window)
            },
            None => None,
        }
    }

    /// Takes every pin away, giving back their windows, oldest first, to be
    /// closed.
    pub fn close_all(&mut self) -> (windows: Vec<W>)
        requires
            old(self).wf(),
        ensures
            final(self).wf(),
            final(self).spec_pins().len() == 0,
            windows@.len() == old(self).spec_pins().len(),
            forall|i: int| 0 <= i < windows@.len() ==> #[trigger] windows@[i] == old(self).spec_pins()[i].1,
    {
        let mut all: Vec<(String, W)> = Vec::new();
        std::mem::swap(&mut all, &mut self.pins);
        let mut windows: Vec<W> = Vec::new();
        let ghost taken = all@;
        let total: usize = all.len();
        let mut rest = all;
        let mut k: usize = 0;
        while rest.len() > 0
            invariant
                rest@ == taken.subrange(k as int, taken.len() as int),
                total == taken.len(),
                windows@.len() == k,
                k <= taken.len(),
                forall|i: int| 0 <= i < k ==> #[trigger] windows@[i] == taken[i].1,
            decreases rest@.len(),
        {
            let (_, w) = rest.remove(0);
            windows.push(w);
            k = k + 1;
            assert(rest@ =~= taken.subrange(k as int, taken.len() as int));
        }
        windows
    }
}

} // verus!
