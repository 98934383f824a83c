use vstd::prelude::*;
use vstd::string::StringExecFns;

use crate::keyed::KeyedList;

verus! {

/// Number of frames in the spinner animation.
pub const SPINNER_FRAMES: usize = 10;

/// A provider's status line: the row it was printed on, its spinner frame,
/// and whether it has finished loading.
#[derive(Clone, Copy, Debug, PartialEq, Eq, Structural)]
pub struct Slot {
    pub row: u16,
    pub frame: usize,
    pub done: bool,
}

/// A signal from the bootstrapper to the progress display.
pub enum LoadingMsg {
    Add(String),
    Remove(String),
}

/// The progress display's state: one status line per provider announced,
/// and the row the next line goes on.
pub struct LoadingDisplay {
    pub lines: KeyedList<Slot>,
    pub next_row: u16,
}

/// A spinner step for a provider still loading.
pub open spec fn ticked(s: Slot) -> Slot {
    if s.done {
        s
    } else {
        Slot { row: s.row, frame: ((s.frame + 1) % (SPINNER_FRAMES as int)) as usize, ..s }
    }
}

/// Where to redraw the spinner of each provider still loading: rows above the
/// cursor, and the new frame.
pub open spec fn redraws(lines: Map<Seq<char>, Slot>, next_row: u16) -> Map<Seq<char>, (u16, usize)> {
    Map::new(
        |k: Seq<char>| lines.contains_key(k) && !lines[k].done,
        |k: Seq<char>| ((next_row - lines[k].row) as u16, ticked(lines[k]).frame),
    )
}

impl LoadingDisplay {
    /// Every line stands on a row already used, and every frame is a spinner frame.
    pub open spec fn wf(&self) -> bool {
        forall|k: Seq<char>|
            #[trigger] self.lines@.contains_key(k) ==> self.lines@[k].row <= self.next_row
                && self.lines@[k].frame < SPINNER_FRAMES
    }

    pub fn new() -> (r: Self)
        ensures
            r.wf(),
            r.lines@ == Map::<Seq<char>, Slot>::empty(),
            r.next_row == 0,
    {
        LoadingDisplay { lines: KeyedList::new(), next_row: 0 }
    }

    /// A provider starts loading: its line goes on the next row, with the
    /// first spinner frame. The row count stops at its largest value.
    pub fn on_add(&mut self, name: String)
        requires
            old(self).wf(),
        ensures
            final(self).wf(),
            final(self).lines@ == old(self).lines@.insert(
                name@,
                Slot { row: old(self).next_row, frame: 0, done: false },
            ),
            final(self).next_row == (if old(self).next_row < u16::MAX {
                (old(self).next_row + 1) as u16
            } else {
                old(self).next_row
            }),
    {
        let row = self.next_row;
        self.lines.insert(name, Slot { row, frame: 0, done: false });
        if self.next_row < u16::MAX {
            self.next_row = self.next_row + 1;
        }
    }

    /// A provider finished loading: its line is marked done, and the result is
    /// how many rows above the cursor that line is. Unknown names change nothing.
    pub fn on_remove(&mut self, name: &str) -> (r: Option<u16>)
        requires
            old(self).wf(),
        ensures
            final(self).wf(),
            final(self).next_row == old(self).next_row,
            match r {
                Some(d) => {
                    &&& old(self).lines@.contains_key(name@)
                    &&& d == old(self).next_row - old(self).lines@[name@].row
                    &&& final(self).lines@ == old(self).lines@.insert(
                        name@,
                        Slot { done: true, ..old(self).lines@[name@] },
                    )
                },
                None => !old(self).lines@.contains_key(name@) && final(self).lines@ == old(self).lines@,
            },
    {
        let slot = match self.lines.get(name) {
            Some(s) => *s,
            None => return None,
        };
        let d = self.next_row - slot.row;
        self.lines.insert(String::from_str(name), Slot { done: true, ..slot });
        Some(d)
    }

    /// A poll timed out: every provider still loading advances its spinner,
    /// and the result says where each redraw goes.
    pub fn on_tick(&mut self) -> (r: KeyedList<(u16, usize)>)
        requires
            old(self).wf(),
        ensures
            final(self).wf(),
            final(self).next_row == old(self).next_row,
            final(self).lines@ == old(self).lines@.map_values(|s: Slot| ticked(s)),
            r@ == redraws(old(self).lines@, old(self).next_row),
    {
        let ghost full = self.lines@;
        let next_row = self.next_row;
        let mut rest = KeyedList::new();
        std::mem::swap(&mut rest, &mut self.lines);
        let mut out: KeyedList<(u16, usize)> = KeyedList::new();
        let mut lines: KeyedList<Slot> = KeyedList::new();
        proof {
            assert(lines@ =~= full.remove_keys(rest@.dom()).map_values(|s: Slot| ticked(s)));
            assert(out@ =~= redraws(full, next_row).remove_keys(rest@.dom()));
        }
        loop
            invariant
                self.next_row == next_row,
                next_row == old(self).next_row,
                full == old(self).lines@,
                forall|k: Seq<char>|
                    #[trigger] full.contains_key(k) ==> full[k].row <= next_row && full[k].frame
                        < SPINNER_FRAMES,
                rest@.submap_of(full),
                lines@ == full.remove_keys(rest@.dom()).map_values(|s: Slot| ticked(s)),
                out@ == redraws(full, next_row).remove_keys(rest@.dom()),
            decreases rest.size(),
        {
            let (name, slot) = match rest.pop() {
                Some(e) => e,
                None => {
                    proof {
                        assert(full.remove_keys(rest@.dom()) =~= full);
                        assert(redraws(full, next_row).remove_keys(rest@.dom()) =~= redraws(full, next_row));
                        assert forall|k: Seq<char>| #[trigger] lines@.contains_key(k) implies lines@[k].row
                            <= next_row && lines@[k].frame < SPINNER_FRAMES by {
                            assert(full.contains_key(k));
                        }
                    }
                    self.lines = lines;
                    return out;
                },
            };
            let ghost key = name@;
            proof {
                assert(full.contains_key(key));
                assert(full[key] == slot);
            }
            if slot.done {
                lines.insert(name, slot);
            } else {
                let frame = (slot.frame + 1) % SPINNER_FRAMES;
                let key_copy = name.clone();
                lines.insert(name, Slot { frame, ..slot });
                out.insert(key_copy, (next_row - slot.row, frame));
            }
            proof {
                assert(lines@ =~= full.remove_keys(rest@.dom()).map_values(|s: Slot| ticked(s)));
                assert(out@ =~= redraws(full, next_row).remove_keys(rest@.dom()));
            }
        }
    }
}

} // verus!
