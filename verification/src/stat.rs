//! Per-worker statistics: counters, timestamps, the input-path label and
//! the done flag, with exact contracts on every update.
use vstd::prelude::*;
use crate::util;

verus! {

/// One worker's statistics record. Timestamps hold seconds since the UNIX
/// epoch and stay zero until set.
pub struct ThreadStat {
    pub is_reader: bool,
    pub input_path: String,
    pub time_begin: u64,
    pub time_end: u64,
    pub num_repeat: usize,
    pub num_stat: usize,
    pub num_read: usize,
    pub num_read_bytes: usize,
    pub num_write: usize,
    pub num_write_bytes: usize,
    pub done: bool,
}

/// All counters of the record are zero.
pub open spec fn spec_counters_zero(s: ThreadStat) -> bool {
    s.num_repeat == 0 && s.num_stat == 0 && s.num_read == 0 && s.num_read_bytes == 0
        && s.num_write == 0 && s.num_write_bytes == 0
}

impl ThreadStat {
    /// A fresh reader-flavored record with empty label and zero counters.
    pub fn new() -> (r: ThreadStat)
        ensures
            r.is_reader == true,
            r.input_path@ == Seq::<char>::empty(),
            r.time_begin == 0,
            r.time_end == 0,
            spec_counters_zero(r),
            r.done == false,
    {
        ThreadStat {
            is_reader: true,
            input_path: String::new(),
            time_begin: 0,
            time_end: 0,
            num_repeat: 0,
            num_stat: 0,
            num_read: 0,
            num_read_bytes: 0,
            num_write: 0,
            num_write_bytes: 0,
            done: false,
        }
    }

    /// A fresh record for a reader.
    pub fn newread() -> (r: ThreadStat)
        ensures
            r.is_reader == true,
            r.input_path@ == Seq::<char>::empty(),
            r.time_begin == 0,
            r.time_end == 0,
            spec_counters_zero(r),
            r.done == false,
    {
        ThreadStat::new()
    }

    /// A fresh record for a writer.
    pub fn newwrite() -> (r: ThreadStat)
        ensures
            r.is_reader == false,
            r.input_path@ == Seq::<char>::empty(),
            r.time_begin == 0,
            r.time_end == 0,
            spec_counters_zero(r),
            r.done == false,
    {
        let mut r = ThreadStat::new();
        r.is_reader = false;
        r
    }

    /// An exact copy of the record.
    pub fn snapshot(&self) -> (r: ThreadStat)
        ensures
            r == *self,
    {
        ThreadStat {
            is_reader: self.is_reader,
            input_path: self.input_path.clone(),
            time_begin: self.time_begin,
            time_end: self.time_end,
            num_repeat: self.num_repeat,
            num_stat: self.num_stat,
            num_read: self.num_read,
            num_read_bytes: self.num_read_bytes,
            num_write: self.num_write,
            num_write_bytes: self.num_write_bytes,
            done: self.done,
        }
    }

    /// Ready means the input-path label has been set.
    pub fn is_ready(&self) -> (r: bool)
        ensures
            r == (self.input_path@.len() != 0),
    {
        !self.input_path.as_str().is_empty()
    }

    /// Sets the input-path label.
    pub fn set_input_path(&mut self, f: &str)
        ensures
            *final(self) == (ThreadStat { input_path: final(self).input_path, ..*old(self) }),
            final(self).input_path@ == f@,
    {
        self.input_path = String::from_str(f);
    }

    /// Stamps the begin time with the present wall clock.
    pub fn set_time_begin(&mut self)
        ensures
            *final(self) == (ThreadStat { time_begin: final(self).time_begin, ..*old(self) }),
    {
        self.time_begin = util::now_seconds();
    }

    /// Stamps the end time with the present wall clock.
    pub fn set_time_end(&mut self)
        ensures
            *final(self) == (ThreadStat { time_end: final(self).time_end, ..*old(self) }),
    {
        self.time_end = util::now_seconds();
    }

    /// Seconds elapsed since the begin timestamp, zero for clocks that ran
    /// backwards.
    pub fn time_elapsed(&self) -> (r: u64) {
        let now = util::now_seconds();
        if now >= self.time_begin {
            now - self.time_begin
        } else {
            0
        }
    }

    pub fn inc_num_repeat(&mut self)
        requires
            old(self).num_repeat < usize::MAX,
        ensures
            *final(self) == (ThreadStat {
                num_repeat: (old(self).num_repeat + 1) as usize,
                ..*old(self)
            }),
    {
        self.num_repeat = self.num_repeat + 1;
    }

    pub fn inc_num_stat(&mut self)
        requires
            old(self).num_stat < usize::MAX,
        ensures
            *final(self) == (ThreadStat {
                num_stat: (old(self).num_stat + 1) as usize,
                ..*old(self)
            }),
    {
        self.num_stat = self.num_stat + 1;
    }

    pub fn inc_num_read(&mut self)
        requires
            old(self).num_read < usize::MAX,
        ensures
            *final(self) == (ThreadStat {
                num_read: (old(self).num_read + 1) as usize,
                ..*old(self)
            }),
    {
        self.num_read = self.num_read + 1;
    }

    pub fn add_num_read_bytes(&mut self, siz: usize)
        requires
            old(self).num_read_bytes + siz <= usize::MAX,
        ensures
            *final(self) == (ThreadStat {
                num_read_bytes: (old(self).num_read_bytes + siz) as usize,
                ..*old(self)
            }),
    {
        self.num_read_bytes = self.num_read_bytes + siz;
    }

    pub fn inc_num_write(&mut self)
        requires
            old(self).num_write < usize::MAX,
        ensures
            *final(self) == (ThreadStat {
                num_write: (old(self).num_write + 1) as usize,
                ..*old(self)
            }),
    {
        self.num_write = self.num_write + 1;
    }

    pub fn add_num_write_bytes(&mut self, siz: usize)
        requires
            old(self).num_write_bytes + siz <= usize::MAX,
        ensures
            *final(self) == (ThreadStat {
                num_write_bytes: (old(self).num_write_bytes + siz) as usize,
                ..*old(self)
            }),
    {
        self.num_write_bytes = self.num_write_bytes + siz;
    }
}

/// Emits one plain line of integer counters per worker; the richer table
/// with rates lives with the front end.
pub fn emit_stats(tsv: &Vec<ThreadStat>) {
    let mut i: usize = 0;
    while i < tsv.len()
        decreases tsv@.len() - i,
    {
        let ts = &tsv[i];
        let mut line = String::new();
        line.append("#");
        util::push_dec(&mut line, i as u64);
        if ts.is_reader {
            line.append(" reader");
        } else {
            line.append(" writer");
        }
        line.append(" repeat ");
        util::push_dec(&mut line, ts.num_repeat as u64);
        line.append(" stat ");
        util::push_dec(&mut line, ts.num_stat as u64);
        line.append(" read ");
        util::push_dec(&mut line, ts.num_read as u64);
        line.append(" read[B] ");
        util::push_dec(&mut line, ts.num_read_bytes as u64);
        line.append(" write ");
        util::push_dec(&mut line, ts.num_write as u64);
        line.append(" write[B] ");
        util::push_dec(&mut line, ts.num_write_bytes as u64);
        line.append(" path ");
        line.append(ts.input_path.as_str());
        util::print_line(line.as_str());
        i += 1;
    }
}

} // verus!
