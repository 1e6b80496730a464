//! Segment tasks: planning them against the partial files already on disk.
use vstd::prelude::*;
use url::Url;
use crate::decimal::{decimal, push_decimal};
use crate::range::{Range, planned_size, segment_high, segment_low};

verus! {

#[verifier::external_type_specification]
#[verifier::external_body]
pub struct ExUrl(url::Url);

/// Relies on the `Clone` that the url crate derives for `Url`: a field-by-field copy.
pub assume_specification[ <url::Url as Clone>::clone ](u: &url::Url) -> (r: url::Url)
    ensures
        r == *u,
;

/// Name of the partial file of segment `index` out of `procs`: `<file_name>.<procs>.<index>`.
pub open spec fn partial_name(file_name: Seq<char>, procs: nat, index: nat) -> Seq<char> {
    file_name + seq!['.'] + decimal(procs) + seq!['.'] + decimal(index)
}

/// One segment that still has bytes to fetch.
pub struct Task {
    pub id: u64,
    pub range: Range,
    pub url: Url,
    pub procs: u64,
    pub file_name: String,
}

impl Task {
    /// Path of the partial file that holds this segment.
    pub fn dest_path(&self) -> (r: String)
        ensures
            r@ == partial_name(self.file_name@, self.procs as nat, self.id as nat),
    {
        partial_path(self.file_name.as_str(), self.procs, self.id)
    }
}

/// `<file_name>.<procs>.<index>`, the partial file of segment `index`.
pub fn partial_path(file_name: &str, procs: u64, index: u64) -> (r: String)
    ensures
        r@ == partial_name(file_name@, procs as nat, index as nat),
{
    let mut s = String::from_str(file_name);
    s.append(".");
    proof { reveal_strlit("."); }
    push_decimal(&mut s, procs);
    s.append(".");
    push_decimal(&mut s, index);
    s
}

/// Why a resource cannot be split into segments.
#[derive(Clone, Copy, Debug, PartialEq, Eq)]
pub enum PlanError {
    /// The segment count is zero.
    NoSegments,
    /// The resource is empty.
    EmptyContent,
    /// There are more segments than bytes, so some segment would be empty.
    TooManySegments,
}

/// Everything that planning needs: segment count, segment size, total length,
/// where to fetch from and the name of the output file.
pub struct TaskConfig {
    pub procs: u64,
    pub task_size: u64,
    pub content_length: u64,
    pub url: Url,
    pub file_name: String,
}

/// Bytes already on disk for a segment: the partial file's length, or none.
pub open spec fn resumed_len(existing: Option<u64>) -> int {
    match existing {
        Some(len) => len as int,
        None => 0,
    }
}

impl TaskConfig {
    /// At least one segment, no more segments than bytes, and the segment size
    /// is the floor of the length over the segment count.
    pub open spec fn wf(&self) -> bool {
        &&& 1 <= self.procs <= self.content_length
        &&& self.task_size == self.content_length / self.procs
    }

    /// Planned byte count of the partial file of segment `i`.
    pub open spec fn planned(&self, i: int) -> int {
        planned_size(i, self.procs as int, self.task_size as int, self.content_length as int)
    }

    /// Segment `i` is complete on disk: its partial file has its planned size.
    pub open spec fn is_complete(&self, existing: Seq<Option<u64>>, i: int) -> bool {
        existing[i] == Some(self.planned(i) as u64)
    }

    /// Partial-file lengths never exceed the planned sizes.
    pub open spec fn valid_existing(&self, existing: Seq<Option<u64>>) -> bool {
        &&& existing.len() == self.procs
        &&& forall|i: int|
            0 <= i < existing.len() ==> resumed_len(#[trigger] existing[i]) <= self.planned(i)
    }

    /// Indices below `n` whose segments are not complete, in ascending order.
    pub open spec fn pending_ids(&self, existing: Seq<Option<u64>>, n: nat) -> Seq<u64>
        decreases n,
    {
        if n == 0 {
            seq![]
        } else if self.is_complete(existing, n - 1) {
            self.pending_ids(existing, (n - 1) as nat)
        } else {
            self.pending_ids(existing, (n - 1) as nat).push((n - 1) as u64)
        }
    }

    /// `t` is the task of segment `t.id`, its start moved past the bytes already on disk.
    pub open spec fn is_task_for(&self, existing: Seq<Option<u64>>, t: Task) -> bool {
        &&& t.procs == self.procs
        &&& t.file_name@ == self.file_name@
        &&& t.url == self.url
        &&& t.range.high == segment_high(
            t.id as int,
            self.procs as int,
            self.task_size as int,
            self.content_length as int,
        )
        &&& t.range.low == segment_low(t.id as int, self.task_size as int) + resumed_len(
            existing[t.id as int],
        )
    }

    /// A configuration for `procs` segments of a resource of `content_length` bytes.
    pub fn new(procs: u64, content_length: u64, url: Url, file_name: String) -> (r: Result<
        TaskConfig,
        PlanError,
    >)
        ensures
            procs == 0 ==> r == Err::<TaskConfig, PlanError>(PlanError::NoSegments),
            procs > 0 && content_length == 0 ==> r == Err::<TaskConfig, PlanError>(
                PlanError::EmptyContent,
            ),
            0 < content_length < procs ==> r == Err::<TaskConfig, PlanError>(
                PlanError::TooManySegments,
            ),
            1 <= procs <= content_length <==> r is Ok,
            r matches Ok(c) ==> {
                &&& c.wf()
                &&& c.procs == procs
                &&& c.content_length == content_length
                &&& c.url == url
                &&& c.file_name@ == file_name@
            },
    {
        if procs == 0 {
            return Err(PlanError::NoSegments);
        }
        if content_length == 0 {
            return Err(PlanError::EmptyContent);
        }
        if content_length < procs {
            return Err(PlanError::TooManySegments);
        }
        Ok(TaskConfig { procs, task_size: content_length / procs, content_length, url, file_name })
    }

    /// The tasks of the segments that are not complete, in ascending index
    /// order. `existing[i]` is the length of the partial file of segment `i`,
    /// if there is one; a segment whose partial file has its planned size gets
    /// no task, any other resumes after the bytes already on disk.
    pub fn assign_tasks(&self, existing: &Vec<Option<u64>>) -> (tasks: Vec<Task>)
        requires
            self.wf(),
            self.valid_existing(existing@),
        ensures
            tasks@.len() == self.pending_ids(existing@, self.procs as nat).len(),
            forall|k: int|
                0 <= k < tasks@.len() ==> (#[trigger] tasks@[k]).id == self.pending_ids(
                    existing@,
                    self.procs as nat,
                )[k] && self.is_task_for(existing@, tasks@[k]),
            forall|k1: int, k2: int|
                0 <= k1 < k2 < tasks@.len() ==> (#[trigger] tasks@[k1]).id < (#[trigger] tasks@[k2]).id,
            forall|i: int|
                0 <= i < self.procs ==> (self.is_complete(existing@, i) <==> !exists|k: int|
                    0 <= k < tasks@.len() && (#[trigger] tasks@[k]).id == i),
    {
        let mut tasks: Vec<Task> = Vec::new();
        let mut idx: usize = 0;
        while idx < existing.len()
            invariant
                idx <= existing@.len(),
                self.wf(),
                self.valid_existing(existing@),
                tasks@.len() == self.pending_ids(existing@, idx as nat).len(),
                forall|k: int|
                    0 <= k < tasks@.len() ==> (#[trigger] tasks@[k]).id == self.pending_ids(
                        existing@,
                        idx as nat,
                    )[k] && self.is_task_for(existing@, tasks@[k]),
            decreases existing@.len() - idx,
        {
            let i: u64 = idx as u64;
            proof {
                assert(i * self.task_size <= self.content_length) by (nonlinear_arith)
                    requires
                        i < self.procs,
                        self.task_size == self.content_length / self.procs,
                        1 <= self.procs,
                ;
                assert(i + 1 < self.procs ==> (i + 1) * self.task_size <= self.content_length)
                    by (nonlinear_arith)
                    requires
                        self.task_size == self.content_length / self.procs,
                        1 <= self.procs,
                ;
                assert(self.task_size >= 1) by (nonlinear_arith)
                    requires
                        1 <= self.procs <= self.content_length,
                        self.task_size == self.content_length / self.procs,
                ;
                assert((i + 1) * self.task_size == i * self.task_size + self.task_size)
                    by (nonlinear_arith);
            }
            let mut range = Range::from(i, self.procs, self.task_size, self.content_length);
            let ghost prev = tasks@;
            assert(resumed_len(existing@[i as int]) <= self.planned(i as int));
            assert(range.low == i * self.task_size);
            let mut complete = false;
            match existing[idx] {
                Some(len) => {
                    if len == self.segment_size(i) {
                        complete = true;
                    } else {
                        range.low = range.low + len;
                    }
                },
                None => {},
            }
            if !complete {
                tasks.push(
                    Task {
                        id: i,
                        procs: self.procs,
                        range,
                        url: self.url.clone(),
                        file_name: self.file_name.clone(),
                    },
                );
            }
            proof {
                assert(complete == self.is_complete(existing@, i as int));
                assert forall|k: int| 0 <= k < tasks@.len() implies (#[trigger] tasks@[k]).id
                    == self.pending_ids(existing@, (i + 1) as nat)[k] && self.is_task_for(
                    existing@,
                    tasks@[k],
                ) by {
                    if k < prev.len() {
                        assert(tasks@[k] == prev[k]);
                    }
                }
            }
            idx = idx + 1;
        }
        proof {
            let ids = self.pending_ids(existing@, self.procs as nat);
            self.lemma_pending_ids(existing@, self.procs as nat);
            assert forall|i: int| 0 <= i < self.procs implies (self.is_complete(existing@, i)
                <==> !exists|k: int| 0 <= k < tasks@.len() && (#[trigger] tasks@[k]).id == i) by {
                if exists|k: int| 0 <= k < tasks@.len() && (#[trigger] tasks@[k]).id == i {
                    let k = choose|k: int| 0 <= k < tasks@.len() && (#[trigger] tasks@[k]).id == i;
                    assert(ids[k] == i);
                }
                if exists|k: int| 0 <= k < ids.len() && #[trigger] ids[k] == i {
                    let k = choose|k: int| 0 <= k < ids.len() && #[trigger] ids[k] == i;
                    assert(tasks@[k].id == i);
                }
            }
        }
        tasks
    }

    /// The pending indices below `n` ascend strictly, and an index below `n`
    /// is among them exactly when its segment is not complete.
    pub proof fn lemma_pending_ids(&self, existing: Seq<Option<u64>>, n: nat)
        requires
            n <= self.procs,
        ensures
            forall|k: int|
                0 <= k < self.pending_ids(existing, n).len() ==> (#[trigger] self.pending_ids(
                    existing,
                    n,
                )[k]) < n,
            forall|k1: int, k2: int|
                0 <= k1 < k2 < self.pending_ids(existing, n).len() ==> (#[trigger] self.pending_ids(
                    existing,
                    n,
                )[k1]) < (#[trigger] self.pending_ids(existing, n)[k2]),
            forall|i: int|
                0 <= i < n ==> (self.is_complete(existing, i) <==> !exists|k: int|
                    0 <= k < self.pending_ids(existing, n).len() && (#[trigger] self.pending_ids(
                        existing,
                        n,
                    )[k]) == i),
        decreases n,
    {
        if n > 0 {
            self.lemma_pending_ids(existing, (n - 1) as nat);
            let p = self.pending_ids(existing, (n - 1) as nat);
            let q = self.pending_ids(existing, n);
            assert(q == p || q == p.push((n - 1) as u64));
            assert forall|i: int|
                0 <= i < n implies (self.is_complete(existing, i) <==> !exists|k: int|
                0 <= k < q.len() && #[trigger] q[k] == i) by {
                if i < n - 1 {
                    if exists|k: int| 0 <= k < q.len() && #[trigger] q[k] == i {
                        let k = choose|k: int| 0 <= k < q.len() && #[trigger] q[k] == i;
                        assert(k < p.len());
                        assert(p[k] == i);
                    }
                    if exists|k: int| 0 <= k < p.len() && #[trigger] p[k] == i {
                        let k = choose|k: int| 0 <= k < p.len() && #[trigger] p[k] == i;
                        assert(q[k] == i);
                    }
                } else {
                    if !self.is_complete(existing, i) {
                        assert(q[q.len() - 1] == i);
                    } else {
                        assert(q == p);
                    }
                }
            }
        }
    }
}

impl TaskConfig {
    /// Paths of the partial files of all segments, in ascending index order,
    /// including segments that were already complete: the order of assembly.
    pub fn partial_paths(&self) -> (r: Vec<String>)
        ensures
            r@.len() == self.procs,
            forall|i: int|
                0 <= i < self.procs ==> (#[trigger] r@[i])@ == partial_name(
                    self.file_name@,
                    self.procs as nat,
                    i as nat,
                ),
    {
        let mut r: Vec<String> = Vec::new();
        let mut i: u64 = 0;
        while i < self.procs
            invariant
                i <= self.procs,
                r@.len() == i,
                forall|j: int|
                    0 <= j < i ==> (#[trigger] r@[j])@ == partial_name(
                        self.file_name@,
                        self.procs as nat,
                        j as nat,
                    ),
            decreases self.procs - i,
        {
            r.push(partial_path(self.file_name.as_str(), self.procs, i));
            i = i + 1;
        }
        r
    }

    /// Planned byte count of the partial file of segment `index`.
    pub fn segment_size(&self, index: u64) -> (r: u64)
        requires
            self.wf(),
            index < self.procs,
        ensures
            r == self.planned(index as int),
    {
        proof {
            assert(index * self.task_size <= self.content_length) by (nonlinear_arith)
                requires
                    index < self.procs,
                    self.task_size == self.content_length / self.procs,
                    1 <= self.procs,
            ;
        }
        if index == self.procs - 1 {
            self.content_length - index * self.task_size
        } else {
            self.task_size
        }
    }

    /// Every segment's partial file is on disk with its planned size, so the
    /// parts may be joined. `lengths[i]` is the length of the partial file of
    /// segment `i`, if there is one.
    pub fn all_complete(&self, lengths: &Vec<Option<u64>>) -> (r: bool)
        requires
            self.wf(),
        ensures
            r == (lengths@.len() == self.procs && forall|i: int|
                0 <= i < self.procs ==> self.is_complete(lengths@, i)),
    {
        if lengths.len() as u64 != self.procs {
            return false;
        }
        let mut idx: usize = 0;
        while idx < lengths.len()
            invariant
                self.wf(),
                lengths@.len() == self.procs,
                idx <= lengths@.len(),
                forall|j: int| 0 <= j < idx ==> self.is_complete(lengths@, j),
            decreases lengths@.len() - idx,
        {
            let size = self.segment_size(idx as u64);
            match lengths[idx] {
                Some(len) => {
                    if len != size {
                        assert(!self.is_complete(lengths@, idx as int));
                        return false;
                    }
                },
                None => {
                    assert(!self.is_complete(lengths@, idx as int));
                    return false;
                },
            }
            idx = idx + 1;
        }
        true
    }
}

/// `dir` ends in a `/`.
pub open spec fn ends_in_slash(dir: Seq<char>) -> bool {
    dir.len() > 0 && dir.last() == '/'
}

/// Relies on std's `Path::join` (`PathBuf::push`): a relative `name` is appended
/// to `dir`; the platform's separator (`/`, or `\` on Windows) is put between
/// them when `dir` is non-empty and does not end in a separator, except after a
/// bare drive such as `C:`. A name starting with `_` has neither root nor
/// prefix, so it is relative; a `dir` without `\` holds no verbatim prefix, the
/// one case in which `push` rewrites `dir`.
#[verifier::external_body]
fn join_path(dir: &str, name: &str) -> (r: String)
    ensures
        name@.len() > 0 && name@[0] == '_' && !dir@.contains('\\') ==> {
            &&& dir@.len() == 0 ==> r@ == name@
            &&& ends_in_slash(dir@) ==> r@ == dir@ + name@
            &&& dir@.len() > 0 && !ends_in_slash(dir@) && !dir@.contains(':') ==> {
                ||| r@ == dir@ + seq!['/'] + name@
                ||| r@ == dir@ + seq!['\\'] + name@
            }
            &&& {
                ||| r@ == dir@ + name@
                ||| r@ == dir@ + seq!['/'] + name@
                ||| r@ == dir@ + seq!['\\'] + name@
            }
        },
{
    std::path::Path::new(dir).join(name).display().to_string()
}

/// `_<name>.<procs>`, the base name of a partial directory.
pub open spec fn partial_dir_base(name: Seq<char>, procs: nat) -> Seq<char> {
    seq!['_'] + name + seq!['.'] + decimal(procs)
}

/// The directory meant for the partial files of `file_name` split `procs` ways:
/// `_<dir_name>.<procs>` where `dir_name` is empty or the root, else
/// `_<file_name>.<procs>` inside `dir_name`, joined with a path separator
/// unless `dir_name` already ends in one.
pub fn get_partial_dirname(dir_name: String, file_name: String, procs: u64) -> (r: String)
    ensures
        dir_name@.len() == 0 || dir_name@ == seq!['/'] ==> r@ == partial_dir_base(
            dir_name@,
            procs as nat,
        ),
        !(dir_name@.len() == 0 || dir_name@ == seq!['/']) && !dir_name@.contains('\\') ==> {
            &&& ends_in_slash(dir_name@) ==> r@ == dir_name@ + partial_dir_base(
                file_name@,
                procs as nat,
            )
            &&& !ends_in_slash(dir_name@) && !dir_name@.contains(':') ==> {
                ||| r@ == dir_name@ + seq!['/'] + partial_dir_base(file_name@, procs as nat)
                ||| r@ == dir_name@ + seq!['\\'] + partial_dir_base(file_name@, procs as nat)
            }
            &&& {
                ||| r@ == dir_name@ + partial_dir_base(file_name@, procs as nat)
                ||| r@ == dir_name@ + seq!['/'] + partial_dir_base(file_name@, procs as nat)
                ||| r@ == dir_name@ + seq!['\\'] + partial_dir_base(file_name@, procs as nat)
            }
        },
{
    let n = dir_name.as_str().unicode_len();
    let root = n == 1 && dir_name.as_str().get_char(0) == '/';
    proof {
        if n == 1 {
            if root {
                assert(dir_name@ =~= seq!['/']);
            }
        }
    }
    let mut base = String::from_str("_");
    proof { reveal_strlit("_"); reveal_strlit("."); }
    if n == 0 || root {
        base.append(dir_name.as_str());
        base.append(".");
        push_decimal(&mut base, procs);
        return base;
    }
    base.append(file_name.as_str());
    base.append(".");
    push_decimal(&mut base, procs);
    assert(base@ == partial_dir_base(file_name@, procs as nat));
    assert(base@[0] == '_');
    join_path(dir_name.as_str(), base.as_str())
}

} // verus!
