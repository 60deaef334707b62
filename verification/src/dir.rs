//! The directory engine: per-entry read and write decisions and their
//! counter accounting, write-path naming, the write budget, and cleanup
//! planning. Filesystem probes and syscalls happen in the driver, which
//! feeds their outcomes back into these functions.
use vstd::prelude::*;
use crate::stat;
use crate::util;
use crate::util::FileType;
use crate::worker;
use crate::Error;
use crate::Opt;

verus! {

pub const MAX_BUFFER_SIZE: usize = 128 * 1024;

/// The kind of filesystem object a writer creates.
#[derive(Clone, Copy, Debug, PartialEq, Eq, Structural)]
pub enum WritePathsType {
    Dir,
    Reg,
    Symlink,
    Link,
}

impl WritePathsType {
    pub fn is_dir(&self) -> (r: bool)
        ensures
            r == (*self is Dir),
    {
        matches!(self, WritePathsType::Dir)
    }

    pub fn is_reg(&self) -> (r: bool)
        ensures
            r == (*self is Reg),
    {
        matches!(self, WritePathsType::Reg)
    }

    pub fn is_symlink(&self) -> (r: bool)
        ensures
            r == (*self is Symlink),
    {
        matches!(self, WritePathsType::Symlink)
    }

    pub fn is_link(&self) -> (r: bool)
        ensures
            r == (*self is Link),
    {
        matches!(self, WritePathsType::Link)
    }
}

/// A worker's buffers, its created paths, and the name counter.
pub struct ThreadDir {
    pub read_buffer: Vec<u8>,
    pub write_buffer: Vec<u8>,
    pub write_paths: Vec<String>,
    pub write_paths_counter: u64,
}

impl ThreadDir {
    /// A reader's state: a zeroed read buffer of `bufsiz` bytes.
    pub fn newread(bufsiz: usize) -> (t: ThreadDir)
        ensures
            t.read_buffer@.len() == bufsiz,
            forall|i: int| 0 <= i < bufsiz ==> t.read_buffer@[i] == 0u8,
            t.write_buffer@.len() == 0,
            t.write_paths@.len() == 0,
            t.write_paths_counter == 0,
    {
        let mut b: Vec<u8> = Vec::new();
        let mut i: usize = 0;
        while i < bufsiz
            invariant
                0 <= i <= bufsiz,
                b@.len() == i,
                forall|j: int| 0 <= j < i ==> b@[j] == 0u8,
            decreases bufsiz - i,
        {
            b.push(0u8);
            i += 1;
        }
        ThreadDir {
            read_buffer: b,
            write_buffer: Vec::new(),
            write_paths: Vec::new(),
            write_paths_counter: 0,
        }
    }

    /// A writer's state: a write buffer of `bufsiz` bytes of 'A'.
    pub fn newwrite(bufsiz: usize) -> (t: ThreadDir)
        ensures
            t.write_buffer@.len() == bufsiz,
            forall|i: int| 0 <= i < bufsiz ==> t.write_buffer@[i] == 0x41u8,
            t.read_buffer@.len() == 0,
            t.write_paths@.len() == 0,
            t.write_paths_counter == 0,
    {
        let mut b: Vec<u8> = Vec::new();
        let mut i: usize = 0;
        while i < bufsiz
            invariant
                0 <= i <= bufsiz,
                b@.len() == i,
                forall|j: int| 0 <= j < i ==> b@[j] == 0x41u8,
            decreases bufsiz - i,
        {
            b.push(0x41u8);
            i += 1;
        }
        ThreadDir {
            read_buffer: Vec::new(),
            write_buffer: b,
            write_paths: Vec::new(),
            write_paths_counter: 0,
        }
    }
}

/// No character of the run timestamp is an underscore; the write-path
/// naming scheme depends on it.
pub open spec fn spec_ts_wf(s: Seq<char>) -> bool {
    forall|i: int| 0 <= i < s.len() ==> s[i] != '_'
}

/// State shared read-only by all workers of one dispatch: the optional
/// random-data pool and the run timestamp.
pub struct Dir {
    pub random_write_data: Vec<u8>,
    pub write_paths_ts: String,
}

impl Dir {
    /// Builds the shared state; the pool is filled only when random write
    /// data was requested, with bytes in [32, 128).
    pub fn new(random: bool) -> (d: Dir)
        ensures
            !random ==> d.random_write_data@.len() == 0,
            random ==> d.random_write_data@.len() == 2 * MAX_BUFFER_SIZE,
            forall|i: int|
                0 <= i < d.random_write_data@.len() ==> 32 <= #[trigger] d.random_write_data@[i]
                    < 128,
            spec_ts_wf(d.write_paths_ts@),
    {
        let mut pool: Vec<u8> = Vec::new();
        if random {
            let n: usize = MAX_BUFFER_SIZE * 2;
            let mut i: usize = 0;
            while i < n
                invariant
                    0 <= i <= n,
                    pool@.len() == i,
                    forall|j: int| 0 <= j < i ==> 32 <= #[trigger] pool@[j] < 128,
                decreases n - i,
            {
                let v = util::get_random(32, 128);
                pool.push(v as u8);
                i += 1;
            }
        }
        Dir { random_write_data: pool, write_paths_ts: util::get_time_string() }
    }
}

/// A path the engine acts on: absolute and without a trailing separator.
pub open spec fn spec_file_path_ok(s: Seq<char>) -> bool {
    util::spec_is_abspath(s) && s[s.len() - 1] != '/'
}

/// The check every entry path must pass before the engine acts on it.
pub fn assert_file_path(f: &str) -> (r: bool)
    ensures
        r == spec_file_path_ok(f@),
{
    let n = f.unicode_len();
    if n == 0 {
        return false;
    }
    f.get_char(0) == '/' && f.get_char(n - 1) != '/'
}

/// The dot filter: a non-directory dot path is skipped when ignore_dot is
/// set.
pub open spec fn spec_dot_skip(f: Seq<char>, t: FileType, o: Opt) -> bool {
    o.ignore_dot && !(t is Dir) && util::spec_is_dot_path(f)
}

/// What the driver must do next for one read entry.
#[derive(Clone, Copy, Debug, PartialEq, Eq, Structural)]
pub enum ReadPlan {
    Skip,
    ResolveLink,
    ReadFile,
}

/// One read entry, given the no-follow type of `f`: counts the probe and
/// decides between skipping, resolving a symlink, and reading a file.
pub fn read_entry(f: &str, t: FileType, thr: &mut worker::Thread, opt: &Opt) -> (plan: ReadPlan)
    requires
        spec_file_path_ok(f@),
        old(thr).stat.num_stat < usize::MAX,
    ensures
        *final(thr) == (worker::Thread { stat: final(thr).stat, ..*old(thr) }),
        final(thr).stat == (stat::ThreadStat {
            num_stat: (old(thr).stat.num_stat + 1) as usize,
            ..old(thr).stat
        }),
        plan == (if spec_dot_skip(f@, t, *opt) || opt.stat_only {
            ReadPlan::Skip
        } else if t is Symlink {
            ReadPlan::ResolveLink
        } else if t is Reg {
            ReadPlan::ReadFile
        } else {
            ReadPlan::Skip
        }),
{
    thr.stat.inc_num_stat();
    if opt.ignore_dot && !t.is_dir() && util::is_dot_path(f) {
        return ReadPlan::Skip;
    }
    if opt.stat_only {
        return ReadPlan::Skip;
    }
    if t.is_symlink() {
        ReadPlan::ResolveLink
    } else if t.is_reg() {
        ReadPlan::ReadFile
    } else {
        ReadPlan::Skip
    }
}

/// Continues a read entry after the driver read the link target: accounts
/// the target's bytes and resolves it against the entry's parent when it is
/// relative. Fails with `NotFound` only when the entry cleans to the root.
pub fn read_entry_link(f: &str, target: &str, thr: &mut worker::Thread, opt: &Opt) -> (r: Result<
    String,
    Error,
>)
    requires
        spec_file_path_ok(f@),
        old(thr).stat.num_read_bytes + target@.len() <= usize::MAX,
    ensures
        *final(thr) == (worker::Thread { stat: final(thr).stat, ..*old(thr) }),
        final(thr).stat == (stat::ThreadStat {
            num_read_bytes: final(thr).stat.num_read_bytes,
            ..old(thr).stat
        }),
        final(thr).stat.num_read_bytes == old(thr).stat.num_read_bytes + target@.len(),
        r is Err <==> (!util::spec_is_abspath(target@) && util::spec_cleaned_abs(f@) == seq![
            '/',
        ]),
        r matches Err(e) ==> e == Error::NotFound,
        r matches Ok(x) ==> util::spec_is_abspath(x@),
        r matches Ok(x) ==> x@ == (if util::spec_is_abspath(target@) {
            target@
        } else {
            util::spec_join_path(util::spec_dirpath(util::spec_cleaned_abs(f@)), target@)
        }),
{
    let blen = target.unicode_len();
    thr.stat.add_num_read_bytes(blen);
    if is_link_target_abs(target) {
        Ok(String::from_str(target))
    } else {
        match util::get_dirpath(f) {
            Ok(d) => {
                let x = util::join_path(d.as_str(), target);
                Ok(x)
            },
            Err(e) => Err(e),
        }
    }
}

fn is_link_target_abs(target: &str) -> (r: bool)
    ensures
        r == util::spec_is_abspath(target@),
{
    util::is_abspath(target)
}

/// Finishes a read entry on the resolved target, whose follow type the
/// driver probed: counts the second probe (a symlink costs two) and decides
/// whether the file is read.
pub fn read_entry_resolved(x: &str, t: FileType, thr: &mut worker::Thread, opt: &Opt) -> (plan:
    ReadPlan)
    requires
        !(t is Symlink),
        old(thr).stat.num_stat < usize::MAX,
    ensures
        *final(thr) == (worker::Thread { stat: final(thr).stat, ..*old(thr) }),
        final(thr).stat == (stat::ThreadStat {
            num_stat: (old(thr).stat.num_stat + 1) as usize,
            ..old(thr).stat
        }),
        plan == (if !opt.follow_symlink {
            ReadPlan::Skip
        } else if t is Reg {
            ReadPlan::ReadFile
        } else {
            ReadPlan::Skip
        }),
{
    thr.stat.inc_num_stat();
    if !opt.follow_symlink {
        return ReadPlan::Skip;
    }
    if t.is_reg() {
        ReadPlan::ReadFile
    } else {
        ReadPlan::Skip
    }
}

/// The per-file read residual: -1 reads to the end, a positive size is
/// taken as is, and zero draws a random size within the buffer.
pub fn read_file_begin(bufsize: usize, read_size: isize) -> (resid: isize)
    requires
        read_size == -1 || read_size >= 0,
        read_size == 0 ==> 1 <= bufsize <= MAX_BUFFER_SIZE,
    ensures
        read_size == -1 ==> resid == -1,
        read_size > 0 ==> resid == read_size,
        read_size == 0 ==> 1 <= resid <= bufsize,
{
    if read_size == 0 {
        let v = util::get_random(0, bufsize);
        (v + 1) as isize
    } else {
        read_size
    }
}

/// How many bytes the next operation may move: the buffer, narrowed to a
/// positive residual.
pub fn chunk_len(resid: isize, buflen: usize) -> (k: usize)
    ensures
        (resid > 0 && buflen > resid) ==> k == resid,
        !(resid > 0 && buflen > resid) ==> k == buflen,
{
    if resid > 0 && buflen > (resid as usize) {
        resid as usize
    } else {
        buflen
    }
}

/// Accounts one read of `siz` bytes and decides whether the file is done:
/// on a zero-length read, or when a positive residual is used up.
pub fn read_file_step(thr: &mut worker::Thread, resid: &mut isize, siz: usize) -> (done: bool)
    requires
        old(thr).stat.num_read < usize::MAX,
        old(thr).stat.num_read_bytes + siz <= usize::MAX,
        siz <= MAX_BUFFER_SIZE,
    ensures
        *final(thr) == (worker::Thread { stat: final(thr).stat, ..*old(thr) }),
        final(thr).stat == (stat::ThreadStat {
            num_read: (old(thr).stat.num_read + 1) as usize,
            num_read_bytes: (old(thr).stat.num_read_bytes + siz) as usize,
            ..old(thr).stat
        }),
        siz == 0 ==> done && *final(resid) == *old(resid),
        siz > 0 && *old(resid) > 0 ==> *final(resid) == *old(resid) - siz && (done <==> *final(resid) >= 0),
        siz > 0 && *old(resid) <= 0 ==> !done && *final(resid) == *old(resid),
{
    thr.stat.inc_num_read();
    thr.stat.add_num_read_bytes(siz);
    if siz == 0 {
        return true;
    }
    if *resid > 0 {
        *resid = *resid - (siz as isize);
        if *resid >= 0 {
            return true;
        }
    }
    false
}

/// What the driver must do next for one write entry.
#[derive(Debug)]
pub enum WritePlan {
    Skip,
    /// Create under the entry itself (the entry is a directory).
    WriteHere,
    /// Create under the entry's parent (the entry is a regular file).
    WriteUnder(String),
}

/// One write entry, given the no-follow type of `f`: counts the probe and
/// picks the parent directory for the new path, or skips. Fails with
/// `NotFound` only when a regular entry cleans to the root.
pub fn write_entry(f: &str, t: FileType, thr: &mut worker::Thread, opt: &Opt) -> (r: Result<
    WritePlan,
    Error,
>)
    requires
        spec_file_path_ok(f@),
        old(thr).stat.num_stat < usize::MAX,
    ensures
        *final(thr) == (worker::Thread { stat: final(thr).stat, ..*old(thr) }),
        final(thr).stat == (stat::ThreadStat {
            num_stat: (old(thr).stat.num_stat + 1) as usize,
            ..old(thr).stat
        }),
        spec_dot_skip(f@, t, *opt) ==> (r matches Ok(p) && p is Skip),
        !spec_dot_skip(f@, t, *opt) && t is Dir ==> (r matches Ok(p) && p is WriteHere),
        !spec_dot_skip(f@, t, *opt) && t is Reg ==> (r matches Ok(p) ==> p matches
            WritePlan::WriteUnder(d) && d@ == util::spec_dirpath(util::spec_cleaned_abs(f@))
            && util::spec_is_abspath(d@)),
        !spec_dot_skip(f@, t, *opt) && t is Reg ==> (r is Err <==> util::spec_cleaned_abs(f@)
            == seq!['/']),
        !spec_dot_skip(f@, t, *opt) && !(t is Dir) && !(t is Reg) ==> (r matches Ok(p) && p
            is Skip),
        r matches Err(e) ==> e == Error::NotFound,
{
    thr.stat.inc_num_stat();
    if opt.ignore_dot && !t.is_dir() && util::is_dot_path(f) {
        return Ok(WritePlan::Skip);
    }
    if t.is_dir() {
        Ok(WritePlan::WriteHere)
    } else if t.is_reg() {
        match util::get_dirpath(f) {
            Ok(d) => Ok(WritePlan::WriteUnder(d)),
            Err(e) => Err(e),
        }
    } else {
        Ok(WritePlan::Skip)
    }
}

/// The write budget is exhausted: the worker is a writer, a positive cap is
/// set, and as many paths are registered.
pub open spec fn spec_is_write_done(thr: worker::Thread, o: Opt) -> bool {
    &&& !(thr.gid < o.num_reader)
    &&& o.num_write_paths > 0
    &&& thr.dir.write_paths@.len() >= o.num_write_paths
}

/// Whether the worker has created all the write paths its budget allows.
pub fn is_write_done(thr: &worker::Thread, opt: &Opt) -> (r: bool)
    ensures
        r == spec_is_write_done(*thr, *opt),
{
    if thr.gid < opt.num_reader || opt.num_write_paths <= 0 {
        false
    } else {
        thr.dir.write_paths.len() >= (opt.num_write_paths as usize)
    }
}

/// The common prefix of every write-path basename of this configuration.
pub fn get_write_paths_base(opt: &Opt) -> (r: String)
    ensures
        r@ == "dirload_"@ + opt.write_paths_base@,
{
    let mut s = String::from_str("dirload_");
    s.append(opt.write_paths_base.as_str());
    s
}

/// The basename of one write path: the common prefix, the worker's id, the
/// run timestamp, and the worker's counter, separated by underscores.
pub open spec fn spec_write_name(base: Seq<char>, gid: nat, ts: Seq<char>, counter: nat) -> Seq<
    char,
> {
    base + "_gid"@ + util::spec_dec(gid) + "_"@ + ts + "_"@ + util::spec_dec(counter)
}

fn make_write_name(opt: &Opt, gid: usize, ts: &str, counter: u64) -> (r: String)
    ensures
        r@ == spec_write_name(
            "dirload_"@ + opt.write_paths_base@,
            gid as nat,
            ts@,
            counter as nat,
        ),
{
    let mut s = get_write_paths_base(opt);
    s.append("_gid");
    util::push_dec(&mut s, gid as u64);
    s.append("_");
    s.append(ts);
    s.append("_");
    util::push_dec(&mut s, counter);
    proof {
        assert(s@ =~= spec_write_name(
            "dirload_"@ + opt.write_paths_base@,
            gid as nat,
            ts@,
            counter as nat,
        ));
    }
    s
}

/// Starts one write-path creation under parent `d`: returns nothing once
/// the budget is exhausted; otherwise names the new path from the worker's
/// counter, advances the counter, and draws the kind from the configured
/// mix.
pub fn write_file_begin(d: &str, thr: &mut worker::Thread, dir: &Dir, opt: &Opt) -> (r: Option<
    (String, WritePathsType),
>)
    requires
        old(thr).dir.write_paths_counter < u64::MAX,
        opt.write_paths_type@.len() > 0,
    ensures
        spec_is_write_done(*old(thr), *opt) ==> r is None && *final(thr) == *old(thr),
        !spec_is_write_done(*old(thr), *opt) ==> r is Some && *final(thr) == (worker::Thread {
            dir: final(thr).dir,
            ..*old(thr)
        }) && final(thr).dir == (ThreadDir {
            write_paths_counter: (old(thr).dir.write_paths_counter + 1) as u64,
            ..old(thr).dir
        }),
        r matches Some((newf, kind)) ==> newf@ == util::spec_join_path(
            d@,
            spec_write_name(
                "dirload_"@ + opt.write_paths_base@,
                old(thr).gid as nat,
                dir.write_paths_ts@,
                old(thr).dir.write_paths_counter as nat,
            ),
        ) && opt.write_paths_type@.contains(kind),
{
    if is_write_done(thr, opt) {
        return None;
    }
    let newb = make_write_name(opt, thr.gid, dir.write_paths_ts.as_str(), thr.dir.write_paths_counter);
    thr.dir.write_paths_counter = thr.dir.write_paths_counter + 1;
    let newf = util::join_path(d, newb.as_str());
    let i = util::get_random(0, opt.write_paths_type.len());
    let kind = opt.write_paths_type[i];
    Some((newf, kind))
}

/// The kind actually created: a hardlink is only legal from a regular
/// source and otherwise degrades to a directory.
pub fn create_inode_plan(source_type: FileType, t: WritePathsType) -> (eff: WritePathsType)
    ensures
        t is Link && source_type is Reg ==> eff is Link,
        t is Link && !(source_type is Reg) ==> eff is Dir,
        !(t is Link) ==> eff == t,
{
    if t.is_link() {
        if source_type.is_reg() {
            WritePathsType::Link
        } else {
            WritePathsType::Dir
        }
    } else {
        t
    }
}

/// Registers the created path and decides whether content is written: only
/// a regular write path takes content; any other kind counts one write and
/// finishes the entry.
pub fn write_file_commit(
    thr: &mut worker::Thread,
    newf: String,
    kind: WritePathsType,
    opt: &Opt,
) -> (cont: bool)
    requires
        old(thr).stat.num_write < usize::MAX,
        old(thr).dir.write_paths@.len() < usize::MAX,
    ensures
        final(thr).dir.write_paths@ == old(thr).dir.write_paths@.push(newf),
        final(thr).dir == (ThreadDir {
            write_paths: final(thr).dir.write_paths,
            ..old(thr).dir
        }),
        cont <==> kind is Reg,
        kind is Reg ==> *final(thr) == (worker::Thread {
            dir: final(thr).dir,
            ..*old(thr)
        }),
        !(kind is Reg) ==> *final(thr) == (worker::Thread {
            dir: final(thr).dir,
            stat: final(thr).stat,
            ..*old(thr)
        }) && final(thr).stat == (stat::ThreadStat {
            num_write: (old(thr).stat.num_write + 1) as usize,
            ..old(thr).stat
        }),
{
    thr.dir.write_paths.push(newf);
    if !kind.is_reg() {
        thr.stat.inc_num_write();
        return false;
    }
    true
}

/// How the content of a regular write path is produced.
#[derive(Debug)]
pub enum WriteBodyPlan {
    /// A negative write size: count one write and finish.
    NoWrite,
    /// Truncate the file to the residual length.
    Truncate(isize),
    /// Stream the residual through the write buffer.
    Stream(isize),
}

/// Decides the content phase from the configured write size: negative
/// skips (counting one write), zero draws a random residual within the
/// buffer, and the truncate flag selects truncation over streaming.
pub fn write_file_body_plan(thr: &mut worker::Thread, opt: &Opt) -> (w: WriteBodyPlan)
    requires
        old(thr).stat.num_write < usize::MAX,
        opt.write_size == 0 ==> 1 <= old(thr).dir.write_buffer@.len() <= MAX_BUFFER_SIZE,
    ensures
        opt.write_size < 0 ==> w is NoWrite && *final(thr) == (worker::Thread {
            stat: final(thr).stat,
            ..*old(thr)
        }) && final(thr).stat == (stat::ThreadStat {
            num_write: (old(thr).stat.num_write + 1) as usize,
            ..old(thr).stat
        }),
        opt.write_size >= 0 ==> *final(thr) == *old(thr),
        opt.write_size >= 0 ==> exists|resid: isize|
            ((opt.truncate_write_paths ==> w == WriteBodyPlan::Truncate(resid))
                && (!opt.truncate_write_paths ==> w == WriteBodyPlan::Stream(resid)) && (
            opt.write_size > 0 ==> resid == opt.write_size) && (opt.write_size == 0 ==> 1 <= resid
                <= old(thr).dir.write_buffer@.len())),
{
    if opt.write_size < 0 {
        thr.stat.inc_num_write();
        return WriteBodyPlan::NoWrite;
    }
    let resid: isize = if opt.write_size == 0 {
        let v = util::get_random(0, thr.dir.write_buffer.len());
        (v + 1) as isize
    } else {
        opt.write_size
    };
    if opt.truncate_write_paths {
        WriteBodyPlan::Truncate(resid)
    } else {
        WriteBodyPlan::Stream(resid)
    }
}

/// Fills the first `k` bytes of the write buffer from a random offset into
/// the shared pool's first half.
pub fn fill_random_buffer(thr: &mut worker::Thread, k: usize, dir: &Dir)
    requires
        dir.random_write_data@.len() == 2 * MAX_BUFFER_SIZE,
        k <= old(thr).dir.write_buffer@.len(),
        k <= MAX_BUFFER_SIZE,
    ensures
        *final(thr) == (worker::Thread { dir: final(thr).dir, ..*old(thr) }),
        final(thr).dir == (ThreadDir {
            write_buffer: final(thr).dir.write_buffer,
            ..old(thr).dir
        }),
        final(thr).dir.write_buffer@.len() == old(thr).dir.write_buffer@.len(),
        exists|off: int|
            #![trigger dir.random_write_data@.subrange(off, off + k)]
            0 <= off && off + k <= dir.random_write_data@.len()
                && final(thr).dir.write_buffer@.subrange(0, k as int)
                == dir.random_write_data@.subrange(off, off + k),
        forall|j: int|
            k <= j < old(thr).dir.write_buffer@.len() ==> final(thr).dir.write_buffer@[j]
                == old(thr).dir.write_buffer@[j],
{
    let off = util::get_random(0, MAX_BUFFER_SIZE);
    let mut j: usize = 0;
    while j < k
        invariant
            0 <= j <= k,
            k <= MAX_BUFFER_SIZE,
            off < MAX_BUFFER_SIZE,
            dir.random_write_data@.len() == 2 * MAX_BUFFER_SIZE,
            off + k <= dir.random_write_data@.len(),
            k <= thr.dir.write_buffer@.len(),
            thr.dir.write_buffer@.len() == old(thr).dir.write_buffer@.len(),
            *thr == (worker::Thread { dir: thr.dir, ..*old(thr) }),
            thr.dir == (ThreadDir { write_buffer: thr.dir.write_buffer, ..old(thr).dir }),
            forall|m: int|
                0 <= m < j ==> thr.dir.write_buffer@[m] == dir.random_write_data@[off + m],
            forall|m: int|
                j <= m < thr.dir.write_buffer@.len() ==> thr.dir.write_buffer@[m]
                    == old(thr).dir.write_buffer@[m],
        decreases k - j,
    {
        let v = dir.random_write_data[off + j];
        thr.dir.write_buffer.set(j, v);
        j += 1;
    }
    proof {
        assert(thr.dir.write_buffer@.subrange(0, k as int) =~= dir.random_write_data@.subrange(
            off as int,
            off + k,
        ));
    }
}

/// Accounts one write of `siz` bytes against the residual and decides
/// whether the content phase is done.
pub fn write_file_step(thr: &mut worker::Thread, resid: &mut isize, siz: usize) -> (done: bool)
    requires
        old(thr).stat.num_write < usize::MAX,
        old(thr).stat.num_write_bytes + siz <= usize::MAX,
        siz <= MAX_BUFFER_SIZE,
        *old(resid) > isize::MIN + MAX_BUFFER_SIZE,
    ensures
        *final(thr) == (worker::Thread { stat: final(thr).stat, ..*old(thr) }),
        final(thr).stat == (stat::ThreadStat {
            num_write: (old(thr).stat.num_write + 1) as usize,
            num_write_bytes: (old(thr).stat.num_write_bytes + siz) as usize,
            ..old(thr).stat
        }),
        *final(resid) == *old(resid) - siz,
        done <==> *final(resid) <= 0,
{
    thr.stat.inc_num_write();
    thr.stat.add_num_write_bytes(siz);
    *resid = *resid - (siz as isize);
    *resid <= 0
}

/// Every write path of every worker, in worker order.
pub open spec fn spec_union_paths(tdv: Seq<worker::Thread>) -> Seq<Seq<char>>
    decreases tdv.len(),
{
    if tdv.len() == 0 {
        Seq::empty()
    } else {
        spec_union_paths(tdv.drop_last()) + tdv.last().dir.write_paths.deep_view()
    }
}

/// What cleanup decided: keep the paths and report how many remain, or
/// hand the union over for unlinking.
#[derive(Debug)]
pub enum CleanupOutcome {
    Kept(usize),
    Unlink(Vec<String>),
}

/// Gathers all workers' write paths; with keep_write_paths they are all
/// left behind and counted, otherwise the union is handed over for
/// unlinking.
pub fn cleanup_write_paths(thrv: &Vec<worker::Thread>, opt: &Opt) -> (r: CleanupOutcome)
    ensures
        opt.keep_write_paths ==> (r matches CleanupOutcome::Kept(n) && n == spec_union_paths(
            thrv@,
        ).len()),
        !opt.keep_write_paths ==> (r matches CleanupOutcome::Unlink(l) && l.deep_view()
            == spec_union_paths(thrv@)),
{
    let mut l: Vec<String> = Vec::new();
    let mut i: usize = 0;
    proof {
        assert(thrv@.take(0) =~= Seq::<worker::Thread>::empty());
        assert(l.deep_view() =~= spec_union_paths(thrv@.take(0)));
    }
    while i < thrv.len()
        invariant
            0 <= i <= thrv@.len(),
            l.deep_view() == spec_union_paths(thrv@.take(i as int)),
        decreases thrv@.len() - i,
    {
        let wp: &Vec<String> = &thrv[i].dir.write_paths;
        let mut j: usize = 0;
        while j < wp.len()
            invariant
                0 <= j <= wp@.len(),
                wp == &thrv@[i as int].dir.write_paths,
                i < thrv@.len(),
                l.deep_view() == spec_union_paths(thrv@.take(i as int)) + wp.deep_view().take(
                    j as int,
                ),
            decreases wp@.len() - j,
        {
            let s = wp[j].clone();
            proof {
                assert(wp.deep_view()[j as int] == wp@[j as int]@);
                assert(s@ == wp.deep_view()[j as int]);
            }
            let ghost pre = l.deep_view();
            l.push(s);
            proof {
                assert(l.deep_view() =~= pre.push(s@));
                assert(pre.push(s@) =~= spec_union_paths(thrv@.take(i as int))
                    + wp.deep_view().take(j + 1));
            }
            j += 1;
        }
        proof {
            assert(wp.deep_view().take(wp.deep_view().len() as int) =~= wp.deep_view());
            assert(thrv@.take(i + 1).drop_last() =~= thrv@.take(i as int));
            assert(thrv@.take(i + 1).last() == thrv@[i as int]);
        }
        i += 1;
    }
    proof {
        assert(thrv@.take(thrv@.len() as int) =~= thrv@);
    }
    if opt.keep_write_paths {
        CleanupOutcome::Kept(l.len())
    } else {
        CleanupOutcome::Unlink(l)
    }
}

/// Prepares unlinking: announces and sorts, so that popping from the tail
/// deletes children before their parents, and bounds the count.
pub fn unlink_write_paths_plan(l: &mut Vec<String>, count: isize) -> (n: usize)
    ensures
        count > 0 && count <= old(l)@.len() ==> n == count,
        count > 0 && count > old(l)@.len() ==> n == old(l)@.len(),
        count <= 0 ==> n == old(l)@.len(),
        util::sorted_lex(final(l).deep_view()),
        final(l).deep_view().to_multiset() == old(l).deep_view().to_multiset(),
        final(l)@.len() == old(l)@.len(),
{
    let mut n = l.len();
    if count > 0 {
        let c = count as usize;
        if c < n {
            n = c;
        }
    }
    let mut msg = String::from_str("Unlink ");
    util::push_dec(&mut msg, n as u64);
    msg.append(" write paths");
    util::print_line(msg.as_str());
    util::sort_strings(l);
    n
}

/// How one write path is removed.
#[derive(Clone, Copy, Debug, PartialEq, Eq, Structural)]
pub enum UnlinkOp {
    Rmdir,
    Unlink,
}

/// The removal operation for one path's no-follow type; device and
/// unsupported objects are never write paths and are refused.
pub fn unlink_op(t: FileType) -> (r: Result<UnlinkOp, Error>)
    ensures
        t is Dir ==> r == Ok::<UnlinkOp, Error>(UnlinkOp::Rmdir),
        t is Reg || t is Symlink ==> r == Ok::<UnlinkOp, Error>(UnlinkOp::Unlink),
        t is Device || t is Unsupported ==> r == Err::<UnlinkOp, Error>(Error::InvalidInput),
{
    if t.is_dir() {
        Ok(UnlinkOp::Rmdir)
    } else if t.is_reg() || t.is_symlink() {
        Ok(UnlinkOp::Unlink)
    } else {
        Err(Error::InvalidInput)
    }
}

/// Retires the tail path after its successful removal.
pub fn unlink_pop(l: &mut Vec<String>, n: &mut usize)
    requires
        old(l)@.len() > 0,
        *old(n) > 0,
    ensures
        final(l)@ == old(l)@.drop_last(),
        final(l).deep_view() == old(l).deep_view().drop_last(),
        *final(n) == *old(n) - 1,
{
    l.truncate(l.len() - 1);
    *n = *n - 1;
    proof {
        assert(l@ =~= old(l)@.drop_last());
        assert(l.deep_view() =~= old(l).deep_view().drop_last());
    }
}

/// Whether a walked entry is a write path of this configuration: a
/// directory, regular file or symlink whose basename carries the
/// write-path prefix. Fails with `NotFound` only when such an entry cleans
/// to the root.
pub fn collect_write_paths_filter(x: &str, t: FileType, opt: &Opt) -> (r: Result<bool, Error>)
    ensures
        !(t is Dir || t is Reg || t is Symlink) ==> r == Ok::<bool, Error>(false),
        (t is Dir || t is Reg || t is Symlink) ==> (r is Err <==> util::spec_cleaned_abs(x@)
            == seq!['/']),
        r matches Err(e) ==> e == Error::NotFound,
        (t is Dir || t is Reg || t is Symlink) ==> (r matches Ok(b) ==> b == ("dirload_"@
            + opt.write_paths_base@).is_prefix_of(
            util::spec_basename(util::spec_cleaned_abs(x@)),
        )),
{
    if t.is_dir() || t.is_reg() || t.is_symlink() {
        let base = get_write_paths_base(opt);
        match util::get_basename(x) {
            Ok(b) => Ok(util::str_starts_with(b.as_str(), base.as_str())),
            Err(e) => Err(e),
        }
    } else {
        Ok(false)
    }
}

/// Distinct (worker id, counter) pairs always yield distinct write-path
/// basenames, whatever the configured base and the run timestamp: the
/// digit runs around the separators parse back unambiguously.
pub proof fn lemma_write_name_injective(
    base: Seq<char>,
    ts: Seq<char>,
    g1: nat,
    c1: nat,
    g2: nat,
    c2: nat,
)
    requires
        g1 != g2 || c1 != c2,
    ensures
        spec_write_name(base, g1, ts, c1) != spec_write_name(base, g2, ts, c2),
{
    reveal_strlit("_gid");
    reveal_strlit("_");
    assert("_"@ =~= seq!['_']);
    if spec_write_name(base, g1, ts, c1) == spec_write_name(base, g2, ts, c2) {
        let a = base + "_gid"@;
        let r1 = ts + seq!['_'] + util::spec_dec(c1);
        let r2 = ts + seq!['_'] + util::spec_dec(c2);
        let x1 = util::spec_dec(g1) + seq!['_'] + r1;
        let x2 = util::spec_dec(g2) + seq!['_'] + r2;
        assert(spec_write_name(base, g1, ts, c1) =~= a + x1);
        assert(spec_write_name(base, g2, ts, c2) =~= a + x2);
        assert(x1 =~= (a + x1).skip(a.len() as int));
        assert(x2 =~= (a + x2).skip(a.len() as int));
        assert(x1 == x2);
        util::lemma_dec_digits(g1);
        util::lemma_dec_digits(g2);
        util::lemma_underscore_split(util::spec_dec(g1), r1, util::spec_dec(g2), r2);
        util::lemma_val_dec(g1);
        util::lemma_val_dec(g2);
        assert(g1 == g2);
        assert(r1 == r2);
        assert(util::spec_dec(c1) =~= r1.skip(ts.len() as int + 1));
        assert(util::spec_dec(c2) =~= r2.skip(ts.len() as int + 1));
        util::lemma_val_dec(c1);
        util::lemma_val_dec(c2);
        assert(c1 == c2);
        assert(false);
    }
}

/// Every registered write path is absolute and lies under the root.
pub open spec fn spec_paths_rooted(paths: Seq<Seq<char>>, root: Seq<char>) -> bool {
    forall|i: int|
        0 <= i < paths.len() ==> util::spec_is_abspath(#[trigger] paths[i]) && root.is_prefix_of(
            paths[i],
        )
}

/// Joining a non-absolute basename under an absolute parent keeps the
/// parent's root prefix and stays absolute.
pub proof fn lemma_join_keeps_root(root: Seq<char>, d: Seq<char>, b: Seq<char>)
    requires
        root.is_prefix_of(d),
        util::spec_is_abspath(d),
        !util::spec_is_abspath(b),
    ensures
        util::spec_is_abspath(util::spec_join_path(d, b)),
        root.is_prefix_of(util::spec_join_path(d, b)),
{
    let j = util::spec_join_path(d, b);
    assert(forall|i: int| 0 <= i < d.len() ==> j[i] == d[i]);
    assert(root =~= j.subrange(0, root.len() as int));
}

/// A worker's registered paths stay absolute and under its root as a new
/// one is added: write_file_begin names the path by joining a basename
/// (never absolute) under a parent the engine derived below the root, and
/// write_file_commit appends exactly that path.
pub proof fn lemma_write_paths_rooted(
    paths: Seq<Seq<char>>,
    root: Seq<char>,
    d: Seq<char>,
    b: Seq<char>,
)
    requires
        spec_paths_rooted(paths, root),
        root.is_prefix_of(d),
        util::spec_is_abspath(d),
        !util::spec_is_abspath(b),
    ensures
        spec_paths_rooted(paths.push(util::spec_join_path(d, b)), root),
{
    lemma_join_keeps_root(root, d, b);
    let p2 = paths.push(util::spec_join_path(d, b));
    assert forall|i: int| 0 <= i < p2.len() implies util::spec_is_abspath(#[trigger] p2[i])
        && root.is_prefix_of(p2[i]) by {
        if i < paths.len() {
            assert(p2[i] == paths[i]);
        }
    }
}

/// A writer under a positive budget never exceeds it: a new path is only
/// begun while the budget is not yet met.
pub proof fn lemma_write_budget_step(before: worker::Thread, after: worker::Thread, o: Opt)
    requires
        o.num_write_paths > 0,
        !(before.gid < o.num_reader),
        !spec_is_write_done(before, o),
        before.dir.write_paths@.len() <= o.num_write_paths,
        after.dir.write_paths@.len() == before.dir.write_paths@.len() + 1,
    ensures
        after.dir.write_paths@.len() <= o.num_write_paths,
{
}

/// A writer that reports its budget exhausted holds exactly as many
/// registered paths as the budget allows: it creates exactly
/// num_write_paths paths before exiting.
pub proof fn lemma_write_budget_exact(thr: worker::Thread, o: Opt)
    requires
        thr.dir.write_paths@.len() <= o.num_write_paths,
        spec_is_write_done(thr, o),
    ensures
        thr.dir.write_paths@.len() == o.num_write_paths,
{
}

/// The probe count dominates the operation counts.
pub open spec fn spec_stat_balanced(s: stat::ThreadStat) -> bool {
    s.num_read + s.num_write <= s.num_stat
}

/// numStat stays at or above numRead + numWrite across an entry whenever
/// the entry counts at least as many probes as operations — which holds
/// for every entry in stat-only mode, for reads of a fixed or random
/// size (one counted read after one or two probes), and for writes whose
/// residual fits the buffer (one counted write after one probe).
pub proof fn lemma_stat_balanced_entry(s0: stat::ThreadStat, s1: stat::ThreadStat)
    requires
        spec_stat_balanced(s0),
        s1.num_read >= s0.num_read,
        s1.num_write >= s0.num_write,
        s1.num_stat - s0.num_stat >= (s1.num_read - s0.num_read) + (s1.num_write
            - s0.num_write),
    ensures
        spec_stat_balanced(s1),
{
}

/// A symlink visited in read mode is probed exactly twice: once by
/// read_entry when it finds the symlink, and once by read_entry_resolved
/// on the resolved target; the link-reading step between them probes
/// nothing.
pub proof fn lemma_symlink_two_stats(
    s0: stat::ThreadStat,
    s1: stat::ThreadStat,
    s2: stat::ThreadStat,
    s3: stat::ThreadStat,
)
    requires
        s1.num_stat == s0.num_stat + 1,
        s2.num_stat == s1.num_stat,
        s3.num_stat == s2.num_stat + 1,
    ensures
        s3.num_stat == s0.num_stat + 2,
{
}

/// The bytes one whole-file read accounts for, following the engine's
/// loop: each round moves the buffer narrowed to a positive residual, a
/// regular file hands back the narrowed length or what remains of it,
/// and the loop ends on a zero-length read or a used-up residual.
pub open spec fn spec_read_total(file: nat, resid: int, buf: nat) -> nat
    decreases file,
{
    if buf == 0 {
        0
    } else {
        let chunk: nat = if resid > 0 && buf > resid {
            resid as nat
        } else {
            buf
        };
        let m: nat = if chunk < file {
            chunk
        } else {
            file
        };
        if m == 0 {
            0
        } else if resid > 0 {
            m
        } else {
            (m + spec_read_total((file - m) as nat, resid, buf)) as nat
        }
    }
}

/// In unbounded mode the engine reads exactly the file's size: buffer
/// chunks until a zero-length read.
pub proof fn lemma_read_total_unbounded(file: nat, buf: nat)
    requires
        buf > 0,
    ensures
        spec_read_total(file, -1, buf) == file,
    decreases file,
{
    if file == 0 {
    } else {
        let m: nat = if buf < file {
            buf
        } else {
            file
        };
        lemma_read_total_unbounded((file - m) as nat, buf);
    }
}

/// With a fixed residual no larger than the buffer the engine reads
/// exactly the residual, or the whole file when that is smaller.
pub proof fn lemma_read_total_fixed(file: nat, resid: int, buf: nat)
    requires
        0 < resid <= buf,
    ensures
        file < resid ==> spec_read_total(file, resid, buf) == file,
        file >= resid ==> spec_read_total(file, resid, buf) == resid,
{
}

/// The bytes a streamed content phase accounts for, following the
/// engine's loop: each round writes the buffer narrowed to the residual
/// (`chunk_len`), and `write_file_step` ends the loop once the residual
/// is used up; the model takes each write as the full narrowed chunk.
pub open spec fn spec_write_total(resid: int, buf: nat) -> nat
    decreases resid,
{
    if buf == 0 || resid <= 0 {
        0
    } else {
        let k: int = if buf > resid {
            resid
        } else {
            buf as int
        };
        (k + spec_write_total(resid - k, buf)) as nat
    }
}

/// A streamed write path carries exactly its residual: a write path of
/// size S receives exactly S bytes when every write completes in full.
pub proof fn lemma_write_total(resid: int, buf: nat)
    requires
        buf > 0,
        resid >= 0,
    ensures
        spec_write_total(resid, buf) == resid,
    decreases resid,
{
    if resid <= 0 {
    } else {
        let k: int = if buf > resid {
            resid
        } else {
            buf as int
        };
        lemma_write_total(resid - k, buf);
    }
}

/// Cleanup's remainder counts the gathered paths not retired: each
/// successful removal pops exactly one, so the remainder is zero exactly
/// when every registered path was unlinked.
pub proof fn lemma_unlink_remainder(total: nat, unlinked: nat)
    requires
        unlinked <= total,
    ensures
        (total - unlinked == 0) <==> (unlinked == total),
{
}

} // verus!
