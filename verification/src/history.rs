use vstd::prelude::*;

verus! {

/// Most filter expressions the history retains.
pub const HISTORY_LEN: usize = 50;

/// The submission-order rule: a resubmitted expression first leaves its
/// old place, a full history loses its oldest entry, and the submitted
/// expression then goes to the end.
pub open spec fn submit_model(entries: Seq<Seq<char>>, cmd: Seq<char>) -> Seq<Seq<char>> {
    match entries.index_of_first(cmd) {
        Some(i) => entries.remove(i).push(cmd),
        None => if entries.len() >= HISTORY_LEN {
            entries.drop_first().push(cmd)
        } else {
            entries.push(cmd)
        },
    }
}

/// Previously submitted filter expressions, in submission order: no
/// duplicates (a resubmitted expression moves to the end), at most
/// `HISTORY_LEN` entries.
pub struct History {
    entries: Vec<String>,
}

impl History {
    /// The retained expressions, oldest submission first.
    pub closed spec fn entries_model(&self) -> Seq<Seq<char>> {
        self.entries@.map_values(|s: String| s@)
    }

    /// Every expression occurs at most once, and the history is bounded.
    pub open spec fn wf(&self) -> bool {
        &&& self.entries_model().len() <= HISTORY_LEN
        &&& self.entries_model().no_duplicates()
    }

    pub fn new() -> (r: History)
        ensures
            r.entries_model() == Seq::<Seq<char>>::empty(),
            r.wf(),
    {
        let r = History { entries: Vec::new() };
        proof {
            assert(r.entries_model() =~= Seq::<Seq<char>>::empty());
        }
        r
    }

    /// Record one submitted expression under the submission-order rule.
    pub fn submit(&mut self, cmd: String)
        requires
            old(self).wf(),
        ensures
            final(self).wf(),
            final(self).entries_model() == submit_model(old(self).entries_model(), cmd@),
    {
        let ghost lines = old(self).entries_model();
        let n = self.entries.len();
        let mut idx: usize = 0;
        while idx < n && !(self.entries[idx] == cmd)
            invariant
                idx <= n,
                n == self.entries.len(),
                self == old(self),
                lines == self.entries_model(),
                forall|k: int| 0 <= k < idx ==> lines[k] != cmd@,
            decreases n - idx,
        {
            proof {
                assert(self.entries_model()[idx as int] == self.entries@[idx as int]@);
            }
            idx = idx + 1;
        }
        proof {
            lines.index_of_first_ensures(cmd@);
            if idx < n {
                assert(self.entries_model()[idx as int] == self.entries@[idx as int]@);
                assert(lines.index_of_first(cmd@) == Some(idx as int));
            } else {
                assert(lines.index_of_first(cmd@) is None);
            }
        }
        if idx < n {
            self.entries.remove(idx);
            self.entries.push(cmd);
            proof {
                lines.remove_ensures(idx as int);
                let rem = lines.remove(idx as int);
                let newm = rem.push(cmd@);
                assert(self.entries_model() =~= newm);
                assert forall|a: int, b: int|
                    0 <= a < newm.len() && 0 <= b < newm.len() && a != b implies newm[a]
                    != newm[b] by {
                    if a < rem.len() && b < rem.len() {
                        assert(newm[a] == lines[if a < idx {
                            a
                        } else {
                            a + 1
                        }]);
                        assert(newm[b] == lines[if b < idx {
                            b
                        } else {
                            b + 1
                        }]);
                    } else {
                        let k = if a < rem.len() {
                            a
                        } else {
                            b
                        };
                        if k < rem.len() {
                            let k0 = if k < idx {
                                k
                            } else {
                                k + 1
                            };
                            assert(newm[k] == lines[k0]);
                            assert(lines[k0] != lines[idx as int]);
                        }
                    }
                }
            }
        } else if n >= HISTORY_LEN {
            self.entries.remove(0);
            self.entries.push(cmd);
            proof {
                let rem = lines.drop_first();
                let newm = rem.push(cmd@);
                assert(self.entries_model() =~= newm);
                assert forall|a: int, b: int|
                    0 <= a < newm.len() && 0 <= b < newm.len() && a != b implies newm[a]
                    != newm[b] by {
                    if a < rem.len() {
                        assert(newm[a] == lines[a + 1]);
                    }
                    if b < rem.len() {
                        assert(newm[b] == lines[b + 1]);
                    }
                }
            }
        } else {
            self.entries.push(cmd);
            proof {
                let newm = lines.push(cmd@);
                assert(self.entries_model() =~= newm);
                assert forall|a: int, b: int|
                    0 <= a < newm.len() && 0 <= b < newm.len() && a != b implies newm[a]
                    != newm[b] by {
                    if a < lines.len() {
                        assert(newm[a] == lines[a]);
                    }
                    if b < lines.len() {
                        assert(newm[b] == lines[b]);
                    }
                }
            }
        }
    }

    /// The retained expressions, oldest first, for display and for the
    /// best-effort persistence on shutdown.
    pub fn entries(&self) -> (r: &Vec<String>)
        ensures
            r@.map_values(|s: String| s@) == self.entries_model(),
    {
        &self.entries
    }
}

} // verus!
