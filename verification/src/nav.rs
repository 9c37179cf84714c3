//! Navigation model: the selection cursors over the aggregation store and the
//! movement operations of the terminal front end. All operations keep the
//! selection invariant: set cursors stay in bounds and the log offset never
//! exceeds the selected lane's entry count.

use vstd::prelude::*;

verus! {

use crate::store::Store;
use crate::store::StoredLog;
use crate::store::lemma_ingest_index_stability;
use crate::store::spec_ingest;

/// The aggregation store together with the operator's selection.
pub struct App {
    pub store: Store,
    /// Selected process position, none before any record has arrived.
    pub process_cursor: Option<usize>,
    /// Selected lane position within the selected process.
    pub thread_cursor: Option<usize>,
    /// Number of initial entries of the selected lane to skip when rendering.
    pub log_offset: usize,
}

impl App {
    /// Selection invariant: a set cursor is in bounds, a thread cursor needs a
    /// process cursor, and the log offset stays within the selected lane.
    pub open spec fn sel_inv(self) -> bool {
        &&& self.store.wf()
        &&& (self.process_cursor matches Some(p) ==> (p as int) < self.store@.len())
        &&& (self.thread_cursor matches Some(t) ==> (self.process_cursor matches Some(p)
            && (t as int) < self.store@[p as int].lanes.len()))
        &&& match (self.process_cursor, self.thread_cursor) {
            (Some(p), Some(t)) => self.log_offset
                <= self.store@[p as int].lanes[t as int].entries.len(),
            _ => self.log_offset == 0,
        }
    }

    /// An app with an empty store and nothing selected.
    pub fn new() -> (app: App)
        ensures
            app.sel_inv(),
            app.store@ == Seq::<crate::store::ProcV>::empty(),
            app.process_cursor is None,
            app.thread_cursor is None,
            app.log_offset == 0,
    {
        App { store: Store::new(), process_cursor: None, thread_cursor: None, log_offset: 0 }
    }

    /// Stores one record under (pid, tid). The first-ever arrival selects the
    /// first process and its first lane; a set cursor is never overwritten.
    pub fn ingest(&mut self, pid: i32, tid: u64, log: StoredLog)
        requires
            old(self).sel_inv(),
        ensures
            final(self).sel_inv(),
            final(self).store@ == spec_ingest(old(self).store@, pid, tid, log@),
            old(self).process_cursor is None ==> final(self).process_cursor == Some(0usize)
                && final(self).thread_cursor == Some(0usize),
            old(self).process_cursor is Some ==> final(self).process_cursor == old(
                self,
            ).process_cursor && final(self).thread_cursor == old(self).thread_cursor,
            final(self).log_offset == old(self).log_offset,
    {
        proof {
            lemma_ingest_index_stability(old(self).store@, pid, tid, log@);
        }
        self.store.ingest(pid, tid, log);
        if self.process_cursor.is_none() {
            self.process_cursor = Some(0);
            self.thread_cursor = Some(0);
        }
    }

    /// Moves the process cursor forward by one, wrapping at the end. Selects
    /// the new process's first lane (or none) and rewinds the log offset.
    /// With nothing selected yet this is a silent no-op.
    pub fn next_process(&mut self)
        requires
            old(self).sel_inv(),
        ensures
            final(self).sel_inv(),
            final(self).store == old(self).store,
            old(self).process_cursor is None ==> *final(self) == *old(self),
            old(self).process_cursor matches Some(p) ==> ({
                let np = (((p + 1) as int) % (old(self).store@.len() as int)) as usize;
                &&& final(self).process_cursor == Some(np)
                &&& final(self).thread_cursor == (if old(self).store@[np as int].lanes.len() > 0 {
                    Some(0usize)
                } else {
                    Option::<usize>::None
                })
                &&& final(self).log_offset == 0
            }),
    {
        if let Some(p) = self.process_cursor {
            let n = self.store.process_count();
            let np = (p + 1) % n;
            self.process_cursor = Some(np);
            self.select_first_lane(np);
        }
    }

    /// Moves the process cursor back by one, wrapping at the start. Selects
    /// the new process's first lane (or none) and rewinds the log offset.
    /// With nothing selected yet this is a silent no-op.
    pub fn previous_process(&mut self)
        requires
            old(self).sel_inv(),
        ensures
            final(self).sel_inv(),
            final(self).store == old(self).store,
            old(self).process_cursor is None ==> *final(self) == *old(self),
            old(self).process_cursor matches Some(p) ==> ({
                let np = if p > 0 {
                    (p - 1) as usize
                } else {
                    (old(self).store@.len() - 1) as usize
                };
                &&& final(self).process_cursor == Some(np)
                &&& final(self).thread_cursor == (if old(self).store@[np as int].lanes.len() > 0 {
                    Some(0usize)
                } else {
                    Option::<usize>::None
                })
                &&& final(self).log_offset == 0
            }),
    {
        if let Some(p) = self.process_cursor {
            let n = self.store.process_count();
            let np = if p > 0 {
                p - 1
            } else {
                n - 1
            };
            self.process_cursor = Some(np);
            self.select_first_lane(np);
        }
    }

    /// Selects the first lane of the process at `np` (or clears the thread
    /// cursor when it has no lane) and rewinds the log offset.
    fn select_first_lane(&mut self, np: usize)
        requires
            old(self).store.wf(),
            (np as int) < old(self).store@.len(),
        ensures
            final(self).store == old(self).store,
            final(self).process_cursor == old(self).process_cursor,
            final(self).thread_cursor == (if old(self).store@[np as int].lanes.len() > 0 {
                Some(0usize)
            } else {
                Option::<usize>::None
            }),
            final(self).log_offset == 0,
    {
        if self.store.lane_count(np) > 0 {
            self.thread_cursor = Some(0);
        } else {
            self.thread_cursor = None;
        }
        self.log_offset = 0;
    }

    /// Moves the thread cursor forward by one within the selected process,
    /// wrapping at the end, and rewinds the log offset. With no thread
    /// selected this is a silent no-op.
    pub fn next_thread(&mut self)
        requires
            old(self).sel_inv(),
        ensures
            final(self).sel_inv(),
            final(self).store == old(self).store,
            final(self).process_cursor == old(self).process_cursor,
            old(self).thread_cursor is None ==> *final(self) == *old(self),
            old(self).thread_cursor matches Some(t) ==> old(
                self,
            ).process_cursor matches Some(p) ==> ({
                let nt = (((t + 1) as int) % (old(self).store@[p as int].lanes.len() as int)) as usize;
                &&& final(self).thread_cursor == Some(nt)
                &&& final(self).log_offset == 0
            }),
    {
        if let (Some(p), Some(t)) = (self.process_cursor, self.thread_cursor) {
            let n = self.store.lane_count(p);
            let nt = (t + 1) % n;
            self.thread_cursor = Some(nt);
            self.log_offset = 0;
        }
    }

    /// Moves the thread cursor back by one within the selected process,
    /// wrapping at the start, and rewinds the log offset. With no thread
    /// selected this is a silent no-op.
    pub fn previous_thread(&mut self)
        requires
            old(self).sel_inv(),
        ensures
            final(self).sel_inv(),
            final(self).store == old(self).store,
            final(self).process_cursor == old(self).process_cursor,
            old(self).thread_cursor is None ==> *final(self) == *old(self),
            old(self).thread_cursor matches Some(t) ==> old(
                self,
            ).process_cursor matches Some(p) ==> ({
                let nt = if t > 0 {
                    (t - 1) as usize
                } else {
                    (old(self).store@[p as int].lanes.len() - 1) as usize
                };
                &&& final(self).thread_cursor == Some(nt)
                &&& final(self).log_offset == 0
            }),
    {
        if let (Some(p), Some(t)) = (self.process_cursor, self.thread_cursor) {
            let n = self.store.lane_count(p);
            let nt = if t > 0 {
                t - 1
            } else {
                n - 1
            };
            self.thread_cursor = Some(nt);
            self.log_offset = 0;
        }
    }

    /// Advances the log offset by one, but never past the selected lane's
    /// entry count. Without a full selection this is a silent no-op.
    pub fn next_log(&mut self)
        requires
            old(self).sel_inv(),
        ensures
            final(self).sel_inv(),
            final(self).store == old(self).store,
            final(self).process_cursor == old(self).process_cursor,
            final(self).thread_cursor == old(self).thread_cursor,
            final(self).log_offset == ({
                match (old(self).process_cursor, old(self).thread_cursor) {
                    (Some(p), Some(t)) => if old(self).log_offset < old(
                        self,
                    ).store@[p as int].lanes[t as int].entries.len() {
                        (old(self).log_offset + 1) as usize
                    } else {
                        old(self).log_offset
                    },
                    _ => old(self).log_offset,
                }
            }),
    {
        if let (Some(p), Some(t)) = (self.process_cursor, self.thread_cursor) {
            if self.log_offset < self.store.entry_count(p, t) {
                self.log_offset = self.log_offset + 1;
            }
        }
    }

    /// Moves the log offset back by one, but never below zero.
    pub fn previous_log(&mut self)
        requires
            old(self).sel_inv(),
        ensures
            final(self).sel_inv(),
            final(self).store == old(self).store,
            final(self).process_cursor == old(self).process_cursor,
            final(self).thread_cursor == old(self).thread_cursor,
            final(self).log_offset == (if old(self).log_offset > 0 {
                (old(self).log_offset - 1) as usize
            } else {
                0usize
            }),
    {
        if self.log_offset > 0 {
            self.log_offset = self.log_offset - 1;
        }
    }
}

} // verus!
