//! Worker records and the scheduler's decision core: path-iteration order,
//! per-entry termination checks, end-of-pass accounting, monitor stepping,
//! and result aggregation. The thin driver loops around these functions and
//! performs the filesystem and channel blocking they decide on.
use vstd::prelude::*;
use crate::dir;
use crate::stat;
use crate::util;
use crate::Error;
use crate::Opt;

verus! {

/// How a worker walks its input root.
#[derive(Clone, Copy, Debug, PartialEq, Eq, Structural)]
pub enum PathIter {
    Walk,
    Ordered,
    Reverse,
    Random,
}

impl PathIter {
    pub fn is_walk(&self) -> (r: bool)
        ensures
            r == (*self is Walk),
    {
        matches!(self, PathIter::Walk)
    }

    pub fn is_ordered(&self) -> (r: bool)
        ensures
            r == (*self is Ordered),
    {
        matches!(self, PathIter::Ordered)
    }

    pub fn is_reverse(&self) -> (r: bool)
        ensures
            r == (*self is Reverse),
    {
        matches!(self, PathIter::Reverse)
    }

    pub fn is_random(&self) -> (r: bool)
        ensures
            r == (*self is Random),
    {
        matches!(self, PathIter::Random)
    }
}

#[verifier::external_type_specification]
#[verifier::external_body]
#[verifier::reject_recursive_types(T)]
pub struct ExSender<T>(std::sync::mpsc::Sender<T>);

/// One worker: its global id, buffers and created paths, statistics, local
/// exit counters, and the optional statistics channel endpoint.
pub struct Thread {
    pub gid: usize,
    pub dir: dir::ThreadDir,
    pub stat: stat::ThreadStat,
    pub num_complete: usize,
    pub num_interrupted: usize,
    pub num_error: usize,
    pub txc: Option<std::sync::mpsc::Sender<(usize, stat::ThreadStat)>>,
}

impl Thread {
    /// A fresh reader worker with a zeroed read buffer of `bufsiz` bytes.
    pub fn newread(gid: usize, bufsiz: usize) -> (t: Thread)
        ensures
            t.gid == gid,
            t.dir.read_buffer@.len() == bufsiz,
            forall|i: int| 0 <= i < bufsiz ==> t.dir.read_buffer@[i] == 0u8,
            t.dir.write_buffer@.len() == 0,
            t.dir.write_paths@.len() == 0,
            t.dir.write_paths_counter == 0,
            t.stat.is_reader == true,
            stat::spec_counters_zero(t.stat),
            t.stat.input_path@.len() == 0,
            t.stat.done == false,
            t.num_complete == 0,
            t.num_interrupted == 0,
            t.num_error == 0,
            t.txc is None,
    {
        Thread {
            gid,
            dir: dir::ThreadDir::newread(bufsiz),
            stat: stat::ThreadStat::newread(),
            num_complete: 0,
            num_interrupted: 0,
            num_error: 0,
            txc: None,
        }
    }

    /// A fresh writer worker with a write buffer of `bufsiz` bytes of 'A'.
    pub fn newwrite(gid: usize, bufsiz: usize) -> (t: Thread)
        ensures
            t.gid == gid,
            t.dir.write_buffer@.len() == bufsiz,
            forall|i: int| 0 <= i < bufsiz ==> t.dir.write_buffer@[i] == 0x41u8,
            t.dir.read_buffer@.len() == 0,
            t.dir.write_paths@.len() == 0,
            t.dir.write_paths_counter == 0,
            t.stat.is_reader == false,
            stat::spec_counters_zero(t.stat),
            t.stat.input_path@.len() == 0,
            t.stat.done == false,
            t.num_complete == 0,
            t.num_interrupted == 0,
            t.num_error == 0,
            t.txc is None,
    {
        Thread {
            gid,
            dir: dir::ThreadDir::newwrite(bufsiz),
            stat: stat::ThreadStat::newwrite(),
            num_complete: 0,
            num_interrupted: 0,
            num_error: 0,
            txc: None,
        }
    }

    /// A reader owns one of the first `num_reader` global ids.
    pub fn is_reader(&self, opt: &Opt) -> (r: bool)
        ensures
            r == (self.gid < opt.num_reader),
    {
        self.gid < opt.num_reader
    }

    /// Every worker that is not a reader is a writer.
    pub fn is_writer(&self, opt: &Opt) -> (r: bool)
        ensures
            r == !(self.gid < opt.num_reader),
    {
        !self.is_reader(opt)
    }

    /// Stamps the end time and sends a snapshot of the statistics when a
    /// monitor channel is attached; without one the call succeeds and
    /// changes nothing. `NotConnected` exactly when sending fails.
    pub fn send_stat(&mut self) -> (r: Result<(), Error>)
        ensures
            *final(self) == (Thread { stat: final(self).stat, ..*old(self) }),
            final(self).stat == (stat::ThreadStat {
                time_end: final(self).stat.time_end,
                ..old(self).stat
            }),
            old(self).txc is None ==> r is Ok && *final(self) == *old(self),
            r matches Err(e) ==> e == Error::NotConnected,
    {
        match &self.txc {
            Some(_) => {
                self.stat.set_time_end();
                let snap = self.stat.snapshot();
                let gid = self.gid;
                match &self.txc {
                    Some(txc) => {
                        if send_msg(txc, gid, snap) {
                            Ok(())
                        } else {
                            Err(Error::NotConnected)
                        }
                    },
                    None => Ok(()),
                }
            },
            None => Ok(()),
        }
    }

    /// Marks the statistics done and sends them like `send_stat`; without
    /// a channel the call succeeds and changes nothing. The done mark is
    /// set before sending, so it stands even when the send fails.
    pub fn send_done(&mut self) -> (r: Result<(), Error>)
        ensures
            *final(self) == (Thread { stat: final(self).stat, ..*old(self) }),
            final(self).stat == (stat::ThreadStat {
                done: final(self).stat.done,
                ..old(self).stat
            }),
            old(self).txc is Some ==> final(self).stat.done == true,
            old(self).txc is None ==> r is Ok && *final(self) == *old(self),
            r matches Err(e) ==> e == Error::NotConnected,
    {
        match &self.txc {
            Some(_) => {
                self.stat.done = true;
                let snap = self.stat.snapshot();
                let gid = self.gid;
                match &self.txc {
                    Some(txc) => {
                        if send_msg(txc, gid, snap) {
                            Ok(())
                        } else {
                            Err(Error::NotConnected)
                        }
                    },
                    None => Ok(()),
                }
            },
            None => Ok(()),
        }
    }
}

/// Relies on std::sync::mpsc::Sender::send: the message is queued for the
/// receiver unless it disconnected; nothing is assumed beyond the
/// success/failure split the result reports.
#[verifier::external_body]
fn send_msg(
    txc: &std::sync::mpsc::Sender<(usize, stat::ThreadStat)>,
    gid: usize,
    ts: stat::ThreadStat,
) -> (r: bool) {
    txc.send((gid, ts)).is_ok()
}

/// Readies one worker before its first pass: labels the statistics with
/// the input root and sends the initial snapshot; without a monitor
/// channel the call always succeeds.
pub fn worker_begin(thr: &mut Thread, input_path: &str) -> (r: Result<(), Error>)
    requires
        old(thr).num_complete == 0,
        old(thr).num_interrupted == 0,
        old(thr).num_error == 0,
    ensures
        *final(thr) == (Thread { stat: final(thr).stat, ..*old(thr) }),
        final(thr).stat == (stat::ThreadStat {
            input_path: final(thr).stat.input_path,
            time_end: final(thr).stat.time_end,
            ..old(thr).stat
        }),
        final(thr).stat.input_path@ == input_path@,
        old(thr).txc is None ==> r is Ok && final(thr).stat.time_end == old(thr).stat.time_end,
        r matches Err(e) ==> e == Error::NotConnected,
{
    thr.stat.set_input_path(input_path);
    thr.send_stat()
}

/// The index a pass visits at step `i`, per iteration mode; the live walk
/// never selects from a file list.
pub fn worker_step_index(path_iter: &PathIter, i: usize, len: usize) -> (r: Result<usize, Error>)
    requires
        i < len,
    ensures
        path_iter is Ordered ==> r == Ok::<usize, Error>(i),
        path_iter is Reverse ==> r == Ok::<usize, Error>((len - 1 - i) as usize),
        path_iter is Random ==> (r matches Ok(k) && k < len),
        path_iter is Walk ==> r == Err::<usize, Error>(Error::InvalidInput),
{
    match path_iter {
        PathIter::Ordered => Ok(i),
        PathIter::Reverse => Ok(len - 1 - i),
        PathIter::Random => Ok(util::get_random(0, len)),
        PathIter::Walk => Err(Error::InvalidInput),
    }
}

/// After one entry: an interrupt ends the pass as interrupted, an expired
/// time budget ends it as complete, and otherwise the throttled timer may
/// send a statistics snapshot.
pub fn worker_post_entry(thr: &mut Thread, timer: &mut util::Timer, interrupted: bool, opt: &Opt) -> (r:
    Result<bool, Error>)
    requires
        old(thr).num_interrupted < usize::MAX,
        old(thr).num_complete < usize::MAX,
        old(timer).counter < u64::MAX,
    ensures
        *final(thr) == (Thread {
            stat: final(thr).stat,
            num_interrupted: final(thr).num_interrupted,
            num_complete: final(thr).num_complete,
            ..*old(thr)
        }),
        final(thr).stat == (stat::ThreadStat {
            time_end: final(thr).stat.time_end,
            ..old(thr).stat
        }),
        interrupted ==> r == Ok::<bool, Error>(true) && final(thr).num_interrupted == old(
            thr,
        ).num_interrupted + 1 && final(thr).num_complete == old(thr).num_complete,
        !interrupted ==> final(thr).num_interrupted == old(thr).num_interrupted,
        !interrupted && opt.time_second == 0 ==> final(thr).num_complete == old(thr).num_complete
            && (r matches Ok(stop) ==> !stop),
        !interrupted ==> (r matches Ok(stop) ==> (stop <==> final(thr).num_complete == old(
            thr,
        ).num_complete + 1)),
        !interrupted ==> (r matches Ok(stop) && stop ==> opt.time_second > 0),
        r matches Err(e) ==> e == Error::NotConnected && final(thr).num_complete == old(
            thr,
        ).num_complete,
        final(timer).duration == old(timer).duration,
        final(timer).frequency == old(timer).frequency,
        old(thr).txc is None ==> r is Ok,
        old(timer).duration == 0 ==> r is Ok && *final(timer) == *old(timer),
        r matches Ok(stop) && stop ==> *final(timer) == *old(timer),
{
    if interrupted {
        thr.num_interrupted = thr.num_interrupted + 1;
        return Ok(true);
    }
    if opt.time_second > 0 && thr.stat.time_elapsed() > opt.time_second {
        thr.num_complete = thr.num_complete + 1;
        return Ok(true);
    }
    if timer.elapsed() {
        match thr.send_stat() {
            Ok(()) => {},
            Err(e) => {
                return Err(e);
            },
        }
        timer.reset();
    }
    Ok(false)
}

/// What follows one full pass over the iteration source.
#[derive(Clone, Copy, Debug, PartialEq, Eq, Structural)]
pub enum EndPass {
    /// The pass was cut short; the worker sent its final statistics.
    Finished,
    /// The worker met its repeat cap or write budget.
    Break,
    /// Another pass follows.
    Continue,
}

/// Closes one pass: an interrupted or completed worker finishes; otherwise
/// the repeat count grows and the repeat cap or the writer's budget may
/// end the loop.
pub fn worker_end_pass(thr: &mut Thread, repeat: &mut isize, opt: &Opt) -> (r: Result<
    EndPass,
    Error,
>)
    requires
        *old(repeat) < isize::MAX,
        old(thr).stat.num_repeat < usize::MAX,
    ensures
        *final(thr) == (Thread { stat: final(thr).stat, ..*old(thr) }),
        old(thr).num_interrupted > 0 || old(thr).num_complete > 0 ==> *final(repeat) == *old(
            repeat,
        ) && (r matches Ok(p) ==> p is Finished) && final(thr).stat == (stat::ThreadStat {
            time_end: final(thr).stat.time_end,
            done: final(thr).stat.done,
            ..old(thr).stat
        }),
        (old(thr).num_interrupted > 0 || old(thr).num_complete > 0) && old(thr).txc is Some
            ==> final(thr).stat.done == true,
        old(thr).txc is None ==> r is Ok,
        r matches Err(e) ==> e == Error::NotConnected,
        !(old(thr).num_interrupted > 0 || old(thr).num_complete > 0) ==> ({
            &&& *final(repeat) == *old(repeat) + 1
            &&& final(thr).stat == (stat::ThreadStat {
                num_repeat: (old(thr).stat.num_repeat + 1) as usize,
                ..old(thr).stat
            })
            &&& r == Ok::<EndPass, Error>(
                if opt.num_repeat > 0 && *old(repeat) + 1 >= opt.num_repeat {
                    EndPass::Break
                } else if !(old(thr).gid < opt.num_reader) && opt.num_write_paths > 0 && old(
                    thr,
                ).dir.write_paths@.len() >= opt.num_write_paths {
                    EndPass::Break
                } else {
                    EndPass::Continue
                },
            )
        }),
{
    if thr.num_interrupted > 0 || thr.num_complete > 0 {
        match thr.send_done() {
            Ok(()) => Ok(EndPass::Finished),
            Err(e) => Err(e),
        }
    } else {
        thr.stat.inc_num_repeat();
        *repeat = *repeat + 1;
        if opt.num_repeat > 0 && *repeat >= opt.num_repeat {
            return Ok(EndPass::Break);
        }
        if thr.is_writer(opt) && dir::is_write_done(thr, opt) {
            return Ok(EndPass::Break);
        }
        Ok(EndPass::Continue)
    }
}

/// Closes a worker that ran to normal completion: final statistics, the
/// done mark, and the completion count. A reader only gets here once its
/// repeat cap is met.
pub fn worker_finish(thr: &mut Thread, repeat: isize, opt: &Opt) -> (r: Result<(), Error>)
    requires
        old(thr).num_complete < usize::MAX,
        old(thr).gid < opt.num_reader ==> opt.num_repeat > 0 && repeat >= opt.num_repeat,
    ensures
        *final(thr) == (Thread {
            stat: final(thr).stat,
            num_complete: final(thr).num_complete,
            ..*old(thr)
        }),
        final(thr).stat == (stat::ThreadStat {
            time_end: final(thr).stat.time_end,
            done: final(thr).stat.done,
            ..old(thr).stat
        }),
        r is Ok ==> final(thr).num_complete == old(thr).num_complete + 1,
        r is Err ==> final(thr).num_complete == old(thr).num_complete,
        r is Ok && old(thr).txc is Some ==> final(thr).stat.done == true,
        old(thr).txc is None ==> r is Ok,
        r matches Err(e) ==> e == Error::NotConnected,
{
    match thr.send_stat() {
        Ok(()) => {},
        Err(e) => {
            return Err(e);
        },
    }
    match thr.send_done() {
        Ok(()) => {},
        Err(e) => {
            return Err(e);
        },
    }
    thr.num_complete = thr.num_complete + 1;
    Ok(())
}

/// A freshly built worker: id `i`, zero counters, and the buffer of its
/// role sized from the options.
pub open spec fn spec_thread_fresh(t: Thread, i: int, o: Opt) -> bool {
    &&& t.gid == i
    &&& t.num_complete == 0
    &&& t.num_interrupted == 0
    &&& t.num_error == 0
    &&& stat::spec_counters_zero(t.stat)
    &&& t.stat.done == false
    &&& t.stat.input_path@.len() == 0
    &&& t.dir.write_paths@.len() == 0
    &&& t.dir.write_paths_counter == 0
    &&& t.txc is None
    &&& (i < o.num_reader ==> t.stat.is_reader && t.dir.read_buffer@.len() == o.read_buffer_size)
    &&& (i >= o.num_reader ==> !t.stat.is_reader && t.dir.write_buffer@.len()
        == o.write_buffer_size)
}

/// Builds the worker pool: the first num_reader ids are readers, the rest
/// writers.
pub fn build_threads(opt: &Opt) -> (thrv: Vec<Thread>)
    requires
        opt.num_reader + opt.num_writer <= usize::MAX,
    ensures
        thrv@.len() == opt.num_reader + opt.num_writer,
        forall|i: int| 0 <= i < thrv@.len() ==> spec_thread_fresh(#[trigger] thrv@[i], i, *opt),
{
    let n = opt.num_reader + opt.num_writer;
    let mut thrv: Vec<Thread> = Vec::new();
    let mut i: usize = 0;
    while i < n
        invariant
            0 <= i <= n,
            n == opt.num_reader + opt.num_writer,
            thrv@.len() == i,
            forall|j: int| 0 <= j < i ==> spec_thread_fresh(#[trigger] thrv@[j], j, *opt),
        decreases n - i,
    {
        if i < opt.num_reader {
            thrv.push(Thread::newread(i, opt.read_buffer_size));
        } else {
            thrv.push(Thread::newwrite(i, opt.write_buffer_size));
        }
        i += 1;
    }
    thrv
}

/// The workers' completion counts, summed.
pub open spec fn spec_sum_complete(s: Seq<Thread>) -> int
    decreases s.len(),
{
    if s.len() == 0 {
        0
    } else {
        spec_sum_complete(s.drop_last()) + s.last().num_complete
    }
}

/// The workers' interruption counts, summed.
pub open spec fn spec_sum_interrupted(s: Seq<Thread>) -> int
    decreases s.len(),
{
    if s.len() == 0 {
        0
    } else {
        spec_sum_interrupted(s.drop_last()) + s.last().num_interrupted
    }
}

/// The workers' error counts, summed.
pub open spec fn spec_sum_error(s: Seq<Thread>) -> int
    decreases s.len(),
{
    if s.len() == 0 {
        0
    } else {
        spec_sum_error(s.drop_last()) + s.last().num_error
    }
}

/// Sums the workers' exit counters for the dispatch report.
pub fn collect_results(thrv: &Vec<Thread>) -> (r: (usize, usize, usize))
    requires
        spec_sum_complete(thrv@) <= usize::MAX,
        spec_sum_interrupted(thrv@) <= usize::MAX,
        spec_sum_error(thrv@) <= usize::MAX,
    ensures
        r.0 == spec_sum_complete(thrv@),
        r.1 == spec_sum_interrupted(thrv@),
        r.2 == spec_sum_error(thrv@),
{
    let mut nc: usize = 0;
    let mut ni: usize = 0;
    let mut ne: usize = 0;
    let mut i: usize = 0;
    proof {
        assert(thrv@.take(0) =~= Seq::<Thread>::empty());
    }
    while i < thrv.len()
        invariant
            0 <= i <= thrv@.len(),
            nc == spec_sum_complete(thrv@.take(i as int)),
            ni == spec_sum_interrupted(thrv@.take(i as int)),
            ne == spec_sum_error(thrv@.take(i as int)),
            spec_sum_complete(thrv@) <= usize::MAX,
            spec_sum_interrupted(thrv@) <= usize::MAX,
            spec_sum_error(thrv@) <= usize::MAX,
        decreases thrv@.len() - i,
    {
        proof {
            assert(thrv@.take(i + 1).drop_last() =~= thrv@.take(i as int));
            assert(thrv@.take(i + 1).last() == thrv@[i as int]);
            lemma_sum_take_bound(thrv@, i + 1);
        }
        nc = nc + thrv[i].num_complete;
        ni = ni + thrv[i].num_interrupted;
        ne = ne + thrv[i].num_error;
        i += 1;
    }
    proof {
        assert(thrv@.take(thrv@.len() as int) =~= thrv@);
    }
    (nc, ni, ne)
}

/// Partial sums of the exit counters never exceed the full sums.
proof fn lemma_sum_take_bound(s: Seq<Thread>, k: int)
    requires
        0 <= k <= s.len(),
    ensures
        spec_sum_complete(s.take(k)) <= spec_sum_complete(s),
        spec_sum_interrupted(s.take(k)) <= spec_sum_interrupted(s),
        spec_sum_error(s.take(k)) <= spec_sum_error(s),
    decreases s.len() - k,
{
    if k == s.len() {
        assert(s.take(k) =~= s);
    } else {
        lemma_sum_take_bound(s, k + 1);
        assert(s.take(k + 1).drop_last() =~= s.take(k));
        assert(s.take(k + 1).last() == s[k]);
    }
}

/// Whether a file-list line lies under the given root.
pub open spec fn spec_root_pred(root: Seq<char>) -> spec_fn(Seq<char>) -> bool {
    |s: Seq<char>| root.is_prefix_of(s)
}

/// Every line lies under at least one root.
pub open spec fn spec_line_has_root(roots: Seq<Seq<char>>, s: Seq<char>) -> bool {
    exists|i: int| 0 <= i < roots.len() && (#[trigger] roots[i]).is_prefix_of(s)
}

/// All loaded lines lie under some root.
pub open spec fn spec_all_lines_rooted(roots: Seq<Seq<char>>, lines: Seq<Seq<char>>) -> bool {
    forall|k: int| 0 <= k < lines.len() ==> spec_line_has_root(roots, #[trigger] lines[k])
}

/// Every root receives at least one line.
pub open spec fn spec_no_empty_bucket(roots: Seq<Seq<char>>, lines: Seq<Seq<char>>) -> bool {
    forall|i: int|
        0 <= i < roots.len() ==> lines.filter(spec_root_pred(#[trigger] roots[i])).len() > 0
}

/// Buckets loaded file-list lines by root: bucket `i` holds, in order,
/// every line under root `i` (a line may land in several buckets). Fails
/// with `InvalidInput` exactly when some line lies under no root or some
/// root receives no line, since an empty bucket would make its worker
/// spin.
pub fn setup_flist_impl(input: &Vec<String>, lines: &Vec<String>) -> (r: Result<
    Vec<Vec<String>>,
    Error,
>)
    ensures
        r is Ok <==> (spec_all_lines_rooted(input.deep_view(), lines.deep_view())
            && spec_no_empty_bucket(input.deep_view(), lines.deep_view())),
        r matches Ok(fls) ==> ({
            &&& fls@.len() == input@.len()
            &&& forall|i: int|
                0 <= i < fls@.len() ==> (#[trigger] fls@[i]).deep_view()
                    == lines.deep_view().filter(spec_root_pred(input.deep_view()[i]))
        }),
        r matches Err(e) ==> e == Error::InvalidInput,
{
    let rn = input.len();
    let ln = lines.len();
    // every line must lie under some root
    let mut k: usize = 0;
    while k < ln
        invariant
            0 <= k <= ln,
            ln == lines@.len(),
            rn == input@.len(),
            lines.deep_view().len() == ln,
            input.deep_view().len() == rn,
            forall|m: int|
                0 <= m < k ==> spec_line_has_root(input.deep_view(), #[trigger] lines.deep_view()[m]),
        decreases ln - k,
    {
        let mut found = false;
        let mut i: usize = 0;
        while i < rn
            invariant
                0 <= i <= rn,
                rn == input@.len(),
                k < lines@.len(),
                lines.deep_view().len() == lines@.len(),
                input.deep_view().len() == rn,
                found == exists|m: int|
                    0 <= m < i && (#[trigger] input.deep_view()[m]).is_prefix_of(
                        lines.deep_view()[k as int],
                    ),
            decreases rn - i,
        {
            let p = util::str_starts_with(lines[k].as_str(), input[i].as_str());
            proof {
                assert(lines.deep_view()[k as int] == lines@[k as int]@);
                assert(input.deep_view()[i as int] == input@[i as int]@);
            }
            if p {
                found = true;
            }
            i += 1;
        }
        if !found {
            let mut msg = String::from_str(lines[k].as_str());
            msg.append(" has no prefix in input roots");
            util::print_line(msg.as_str());
            proof {
                assert(!spec_line_has_root(input.deep_view(), lines.deep_view()[k as int]));
            }
            return Err(Error::InvalidInput);
        }
        k += 1;
    }
    // build one bucket per root
    let mut fls: Vec<Vec<String>> = Vec::new();
    let mut i: usize = 0;
    while i < rn
        invariant
            0 <= i <= rn,
            rn == input@.len(),
            ln == lines@.len(),
            lines.deep_view().len() == ln,
            input.deep_view().len() == rn,
            fls@.len() == i,
            forall|m: int|
                0 <= m < i ==> (#[trigger] fls@[m]).deep_view() == lines.deep_view().filter(
                    spec_root_pred(input.deep_view()[m]),
                ),
            forall|m: int| 0 <= m < i ==> (#[trigger] fls@[m]).deep_view().len() > 0,
            spec_all_lines_rooted(input.deep_view(), lines.deep_view()),
        decreases rn - i,
    {
        let ghost pred = spec_root_pred(input.deep_view()[i as int]);
        let mut vi: Vec<String> = Vec::new();
        let mut k2: usize = 0;
        proof {
            reveal(Seq::filter);
            assert(lines.deep_view().take(0) =~= Seq::<Seq<char>>::empty());
            assert(vi.deep_view() =~= lines.deep_view().take(0).filter(pred));
        }
        while k2 < ln
            invariant
                0 <= k2 <= ln,
                ln == lines@.len(),
                i < rn,
                rn == input@.len(),
                lines.deep_view().len() == ln,
                input.deep_view().len() == rn,
                pred == spec_root_pred(input.deep_view()[i as int]),
                vi.deep_view() == lines.deep_view().take(k2 as int).filter(pred),
            decreases ln - k2,
        {
            let p = util::str_starts_with(lines[k2].as_str(), input[i].as_str());
            proof {
                assert(lines.deep_view()[k2 as int] == lines@[k2 as int]@);
                assert(input.deep_view()[i as int] == input@[i as int]@);
            }
            let ghost pre = vi.deep_view();
            if p {
                vi.push(lines[k2].clone());
            }
            proof {
                reveal(Seq::filter);
                let dv = lines.deep_view();
                assert(dv.take(k2 + 1).drop_last() =~= dv.take(k2 as int));
                assert(dv.take(k2 + 1).last() == dv[k2 as int]);
                if p {
                    assert(vi.deep_view() =~= pre.push(dv[k2 as int]));
                }
                assert(vi.deep_view() =~= dv.take(k2 + 1).filter(pred));
            }
            k2 += 1;
        }
        proof {
            assert(lines.deep_view().take(ln as int) =~= lines.deep_view());
        }
        let vlen = vi.len();
        if vlen == 0 {
            let mut msg = String::from_str("empty flist ");
            msg.append(input[i].as_str());
            util::print_line(msg.as_str());
            proof {
                assert(lines.deep_view().filter(pred).len() == 0);
            }
            return Err(Error::InvalidInput);
        }
        let mut msg = String::from_str("flist ");
        msg.append(input[i].as_str());
        msg.append(" ");
        util::push_dec(&mut msg, vlen as u64);
        util::print_line(msg.as_str());
        proof {
            assert(vi.deep_view().len() == vi@.len());
        }
        fls.push(vi);
        i += 1;
    }
    proof {
        assert forall|m: int| 0 <= m < rn implies lines.deep_view().filter(
            spec_root_pred(#[trigger] input.deep_view()[m]),
        ).len() > 0 by {
            assert(fls@[m].deep_view() == lines.deep_view().filter(
                spec_root_pred(input.deep_view()[m]),
            ));
            assert(fls@[m].deep_view().len() > 0);
        }
    }
    Ok(fls)
}

/// Refuses a scanned set of per-root lists when any root yielded nothing,
/// since an empty list would make its worker spin; announces each list as
/// the loaded-file path does.
pub fn check_flists_nonempty(input: &Vec<String>, fls: &Vec<Vec<String>>) -> (r: Result<
    (),
    Error,
>)
    requires
        input@.len() == fls@.len(),
    ensures
        r is Ok <==> (forall|i: int| 0 <= i < fls@.len() ==> (#[trigger] fls@[i])@.len() > 0),
        r matches Err(e) ==> e == Error::InvalidInput,
{
    let mut i: usize = 0;
    while i < fls.len()
        invariant
            0 <= i <= fls@.len(),
            input@.len() == fls@.len(),
            forall|j: int| 0 <= j < i ==> (#[trigger] fls@[j])@.len() > 0,
        decreases fls@.len() - i,
    {
        let n = fls[i].len();
        if n == 0 {
            let mut msg = String::from_str("empty flist ");
            msg.append(input[i].as_str());
            util::print_line(msg.as_str());
            proof {
                assert(fls@[i as int]@.len() == 0);
            }
            return Err(Error::InvalidInput);
        }
        let mut msg = String::from_str("flist ");
        msg.append(input[i].as_str());
        msg.append(" ");
        util::push_dec(&mut msg, n as u64);
        util::print_line(msg.as_str());
        i += 1;
    }
    Ok(())
}

/// Every worker's snapshot is marked done.
pub open spec fn spec_all_done(tsv: Seq<stat::ThreadStat>) -> bool {
    forall|i: int| 0 <= i < tsv.len() ==> (#[trigger] tsv[i]).done
}

/// Every worker's snapshot carries an input-path label.
pub open spec fn spec_all_ready(tsv: Seq<stat::ThreadStat>) -> bool {
    forall|i: int| 0 <= i < tsv.len() ==> (#[trigger] tsv[i]).input_path@.len() != 0
}

/// What the driver handed the monitor from one timed receive.
pub enum RecvOutcome {
    Msg(usize, stat::ThreadStat),
    TimedOut,
    Disconnected,
}

/// What the monitor does after one step.
#[derive(Clone, Copy, Debug, PartialEq, Eq, Structural)]
pub enum MonitorAct {
    Exit,
    Fail,
    Continue,
}

/// The monitor's state: the latest snapshot of every worker, the latched
/// readiness flag, and the emission timer.
pub struct MonitorState {
    pub tsv: Vec<stat::ThreadStat>,
    pub ready: bool,
    pub timer: util::Timer,
}

/// A monitor over `n` workers, emitting at the configured interval.
pub fn monitor_new(n: usize, opt: &Opt) -> (st: MonitorState)
    requires
        opt.monitor_int_second > 0,
    ensures
        st.tsv@.len() == n,
        forall|i: int| 0 <= i < n ==> !(#[trigger] st.tsv@[i]).done,
        st.ready == false,
        st.timer.duration == opt.monitor_int_second,
        st.timer.frequency == 0,
        st.timer.counter == 0,
{
    let mut tsv: Vec<stat::ThreadStat> = Vec::new();
    let mut i: usize = 0;
    while i < n
        invariant
            0 <= i <= n,
            tsv@.len() == i,
            forall|j: int| 0 <= j < i ==> !(#[trigger] tsv@[j]).done,
        decreases n - i,
    {
        tsv.push(stat::ThreadStat::new());
        i += 1;
    }
    MonitorState { tsv, ready: false, timer: util::Timer::new(opt.monitor_int_second, 0) }
}

/// One monitor step for one receive outcome: a disconnect fails, a message
/// overwrites that worker's snapshot and may end the run once every worker
/// is done, readiness latches once every worker is ready, and the interval
/// timer emits a snapshot when it fires.
pub fn monitor_handler(st: &mut MonitorState, event: RecvOutcome, opt: &Opt) -> (act: MonitorAct)
    requires
        old(st).timer.counter < u64::MAX,
    ensures
        event is Disconnected ==> act is Fail && *final(st) == *old(st),
        event is TimedOut ==> final(st).tsv == old(st).tsv && final(st).ready == old(st).ready
            && !(act is Exit) && !(act is Fail),
        event matches RecvOutcome::Msg(gid, ts) ==> ({
            &&& (gid < old(st).tsv@.len() ==> final(st).tsv@ == old(st).tsv@.update(
                gid as int,
                ts,
            ))
            &&& (gid >= old(st).tsv@.len() ==> final(st).tsv == old(st).tsv)
            &&& (act is Exit <==> (final(st).tsv@.len() > 0 && spec_all_done(final(st).tsv@)))
            &&& !(act is Fail)
            &&& (act is Continue ==> final(st).ready == (old(st).ready || spec_all_ready(
                final(st).tsv@,
            )))
        }),
{
    let mut timeout = false;
    match event {
        RecvOutcome::Disconnected => {
            return MonitorAct::Fail;
        },
        RecvOutcome::Msg(gid, ts) => {
            if gid < st.tsv.len() {
                st.tsv.set(gid, ts);
            }
        },
        RecvOutcome::TimedOut => {
            timeout = true;
        },
    }
    if !timeout {
        let n = st.tsv.len();
        let mut all_done = n > 0;
        let mut i: usize = 0;
        while i < n
            invariant
                0 <= i <= n,
                n == st.tsv@.len(),
                all_done == (n > 0 && spec_all_done(st.tsv@.take(i as int))),
            decreases n - i,
        {
            let d = st.tsv[i].done;
            proof {
                assert(st.tsv@.take(i + 1).drop_last() =~= st.tsv@.take(i as int));
                assert(st.tsv@.take(i + 1)[i as int] == st.tsv@[i as int]);
                assert(spec_all_done(st.tsv@.take(i + 1)) == (spec_all_done(st.tsv@.take(i as int))
                    && st.tsv@[i as int].done)) by {
                    if spec_all_done(st.tsv@.take(i as int)) && st.tsv@[i as int].done {
                        assert forall|j: int| 0 <= j < i + 1 implies (#[trigger] st.tsv@.take(
                            i + 1,
                        )[j]).done by {
                            if j < i {
                                assert(st.tsv@.take(i + 1)[j] == st.tsv@.take(i as int)[j]);
                            }
                        }
                    }
                }
            }
            if !d {
                all_done = false;
            }
            i += 1;
        }
        proof {
            assert(st.tsv@.take(n as int) =~= st.tsv@);
        }
        if all_done {
            return MonitorAct::Exit;
        }
        if !st.ready {
            let mut all_ready = true;
            let mut k: usize = 0;
            while k < n
                invariant
                    0 <= k <= n,
                    n == st.tsv@.len(),
                    all_ready == spec_all_ready(st.tsv@.take(k as int)),
                decreases n - k,
            {
                let rd = st.tsv[k].is_ready();
                proof {
                    assert(st.tsv@.take(k + 1).drop_last() =~= st.tsv@.take(k as int));
                    assert(st.tsv@.take(k + 1)[k as int] == st.tsv@[k as int]);
                    assert(spec_all_ready(st.tsv@.take(k + 1)) == (spec_all_ready(st.tsv@.take(
                        k as int,
                    )) && st.tsv@[k as int].input_path@.len() != 0)) by {
                        if spec_all_ready(st.tsv@.take(k as int)) && st.tsv@[k as int].input_path@.len() != 0 {
                            assert forall|j: int| 0 <= j < k + 1 implies (#[trigger] st.tsv@.take(
                                k + 1,
                            )[j]).input_path@.len() != 0 by {
                                if j < k {
                                    assert(st.tsv@.take(k + 1)[j] == st.tsv@.take(k as int)[j]);
                                }
                            }
                        }
                    }
                }
                if !rd {
                    all_ready = false;
                }
                k += 1;
            }
            proof {
                assert(st.tsv@.take(n as int) =~= st.tsv@);
            }
            if all_ready {
                st.ready = true;
            }
        }
    }
    if st.timer.elapsed() {
        if st.ready {
            stat::emit_stats(&st.tsv);
        }
        st.timer.reset();
    }
    MonitorAct::Continue
}

} // verus!
