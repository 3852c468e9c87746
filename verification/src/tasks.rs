//! Background tasks (downloads, installs) and their progress, as shown to
//! the browser. The downloads themselves run in the program around the
//! library, which reports progress here.
use vstd::prelude::*;
use crate::text::same_text;

verus! {

broadcast use vstd::seq_lib::group_to_multiset_ensures;

#[derive(Debug, Clone, Copy, PartialEq, Eq, Structural)]
pub enum TaskStatus {
    Running,
    Done,
    Failed,
}

#[derive(Debug)]
pub struct Task {
    pub id: String,
    pub kind: String,
    pub label: String,
    pub status: TaskStatus,
    pub progress: u64,
    pub total: Option<u64>,
    pub message: String,
    /// Microseconds since the Unix epoch.
    pub started_at: i64,
    pub finished_at: Option<i64>,
}

pub struct TaskV {
    pub id: Seq<char>,
    pub kind: Seq<char>,
    pub label: Seq<char>,
    pub status: TaskStatus,
    pub progress: u64,
    pub total: Option<u64>,
    pub message: Seq<char>,
    pub started_at: i64,
    pub finished_at: Option<i64>,
}

impl View for Task {
    type V = TaskV;

    open spec fn view(&self) -> TaskV {
        TaskV {
            id: self.id@,
            kind: self.kind@,
            label: self.label@,
            status: self.status,
            progress: self.progress,
            total: self.total,
            message: self.message@,
            started_at: self.started_at,
            finished_at: self.finished_at,
        }
    }
}

impl Clone for Task {
    fn clone(&self) -> (r: Self)
        ensures
            r@ == self@,
    {
        Task {
            id: self.id.clone(),
            kind: self.kind.clone(),
            label: self.label.clone(),
            status: self.status,
            progress: self.progress,
            total: self.total,
            message: self.message.clone(),
            started_at: self.started_at,
            finished_at: self.finished_at,
        }
    }
}

pub open spec fn task_ids_unique(s: Seq<TaskV>) -> bool {
    forall|i: int, j: int| 0 <= i < s.len() && 0 <= j < s.len() && i != j ==> s[i].id != s[j].id
}

pub open spec fn task_index(s: Seq<TaskV>, id: Seq<char>) -> Option<int> {
    if exists|i: int| 0 <= i < s.len() && s[i].id == id {
        Some(choose|i: int| 0 <= i < s.len() && s[i].id == id)
    } else {
        None
    }
}

/// A task as it starts.
pub open spec fn new_task(id: Seq<char>, kind: Seq<char>, label: Seq<char>, now: i64) -> TaskV {
    TaskV {
        id,
        kind,
        label,
        status: TaskStatus::Running,
        progress: 0,
        total: None,
        message: Seq::empty(),
        started_at: now,
        finished_at: None,
    }
}

/// A task finished successfully: the progress jumps to the total when it is known.
pub open spec fn done_task(t: TaskV, msg: Seq<char>, now: i64) -> TaskV {
    TaskV {
        status: TaskStatus::Done,
        message: msg,
        finished_at: Some(now),
        progress: match t.total { Some(n) => n, None => t.progress },
        ..t
    }
}

pub open spec fn failed_task(t: TaskV, msg: Seq<char>, now: i64) -> TaskV {
    TaskV { status: TaskStatus::Failed, message: msg, finished_at: Some(now), ..t }
}

pub open spec fn task_put(s: Seq<TaskV>, t: TaskV) -> Seq<TaskV> {
    match task_index(s, t.id) {
        Some(i) => s.update(i, t),
        None => s.push(t),
    }
}

/// The key tasks are listed by: their start time.
pub open spec fn started_keys(s: Seq<TaskV>) -> Seq<i128> {
    s.map_values(|t: TaskV| t.started_at as i128)
}

#[derive(Debug)]
pub struct TaskRegistry {
    tasks: Vec<Task>,
}

impl TaskRegistry {
    pub closed spec fn tasks(&self) -> Seq<TaskV> {
        self.tasks@.map_values(|t: Task| t@)
    }

    pub open spec fn wf(&self) -> bool {
        task_ids_unique(self.tasks())
    }

    pub fn new() -> (r: TaskRegistry)
        ensures
            r.wf(),
            r.tasks() == Seq::<TaskV>::empty(),
    {
        let r = TaskRegistry { tasks: Vec::new() };
        assert(r.tasks() =~= Seq::<TaskV>::empty());
        r
    }

    fn find(&self, id: &str) -> (r: Option<usize>)
        requires
            self.wf(),
        ensures
            r matches Some(i) ==> task_index(self.tasks(), id@) == Some(i as int),
            r is None ==> task_index(self.tasks(), id@) is None,
    {
        let mut i: usize = 0;
        while i < self.tasks.len()
            invariant
                self.wf(),
                i <= self.tasks@.len(),
                forall|j: int| 0 <= j < i ==> self.tasks()[j].id != id@,
            decreases self.tasks@.len() - i,
        {
            assert(self.tasks()[i as int].id == self.tasks@[i as int].id@);
            if same_text(self.tasks[i].id.as_str(), id) {
                proof {
                    let k = choose|k: int| 0 <= k < self.tasks().len() && self.tasks()[k].id == id@;
                    assert(k == i);
                }
                return Some(i);
            }
            i = i + 1;
        }
        None
    }

    fn put(&mut self, t: Task)
        requires
            old(self).wf(),
        ensures
            final(self).wf(),
            final(self).tasks() == task_put(old(self).tasks(), t@),
    {
        let ghost tv = t@;
        match self.find(t.id.as_str()) {
            Some(i) => {
                self.tasks.set(i, t);
                assert(self.tasks() =~= task_put(old(self).tasks(), tv));
            },
            None => {
                self.tasks.push(t);
                assert(self.tasks() =~= task_put(old(self).tasks(), tv));
            },
        }
    }

    /// Register a running task with id `id`, started at `now`; returns it.
    pub fn create_at(&mut self, kind: &str, label: &str, id: String, now: i64) -> (t: Task)
        requires
            old(self).wf(),
        ensures
            final(self).wf(),
            t@ == new_task(id@, kind@, label@, now),
            final(self).tasks() == task_put(old(self).tasks(), t@),
    {
        let t = Task {
            id,
            kind: String::from_str(kind),
            label: String::from_str(label),
            status: TaskStatus::Running,
            progress: 0,
            total: None,
            message: String::new(),
            started_at: now,
            finished_at: None,
        };
        let copy = t.clone();
        self.put(copy);
        t
    }

    /// Register a running task under a fresh random id, started now.
    pub fn create(&mut self, kind: &str, label: &str) -> (t: Task)
        requires
            old(self).wf(),
        ensures
            final(self).wf(),
            t@ == new_task(t@.id, kind@, label@, t@.started_at),
            crate::ids::is_hyphenated_uuid(t@.id),
            final(self).tasks() == task_put(old(self).tasks(), t@),
    {
        let id = crate::ids::random_uuid();
        let now = crate::clock::now_micros();
        self.create_at(kind, label, id, now)
    }

    /// Replace task `id` by what `f` makes of it (keeping its id); returns the
    /// new task, or nothing when there is no such task.
    pub fn update<F: FnOnce(Task) -> Task>(&mut self, id: &str, f: F) -> (r: Option<Task>)
        requires
            old(self).wf(),
            forall|t: Task| f.requires((t,)),
        ensures
            final(self).wf(),
            match task_index(old(self).tasks(), id@) {
                Some(i) => r matches Some(t) && t@.id == old(self).tasks()[i].id
                    && final(self).tasks() == old(self).tasks().update(i, t@)
                    && exists|before: Task, after: Task| before@ == old(self).tasks()[i] && f.ensures((before,), after)
                        && t@ == (TaskV { id: before@.id, ..after@ }),
                None => r is None && final(self).tasks() == old(self).tasks(),
            },
    {
        match self.find(id) {
            Some(i) => {
                let before = self.tasks[i].clone();
                let key = self.tasks[i].id.clone();
                let ghost bv = before;
                let mut after = f(before);
                let ghost av = after;
                after.id = key;
                let snapshot = after.clone();
                let ghost o = self.tasks();
                self.tasks.set(i, after);
                assert(self.tasks() =~= o.update(i as int, snapshot@));
                assert forall|a: int, b: int| 0 <= a < self.tasks().len() && 0 <= b < self.tasks().len() && a != b
                    implies self.tasks()[a].id != self.tasks()[b].id by {
                    assert(self.tasks()[i as int].id == o[i as int].id);
                    if a != i { assert(self.tasks()[a] == o[a]); }
                    if b != i { assert(self.tasks()[b] == o[b]); }
                }
                assert(snapshot@ == (TaskV { id: bv@.id, ..av@ }));
                Some(snapshot)
            },
            None => None,
        }
    }

    /// Set a task's total and message, as a download does when it starts.
    pub fn set_total(&mut self, id: &str, total: Option<u64>, message: &str) -> (r: Option<Task>)
        requires
            old(self).wf(),
        ensures
            final(self).wf(),
            match task_index(old(self).tasks(), id@) {
                Some(i) => {
                    let t = TaskV { total, message: message@, ..old(self).tasks()[i] };
                    r matches Some(x) && x@ == t && final(self).tasks() == old(self).tasks().update(i, t)
                },
                None => r is None && final(self).tasks() == old(self).tasks(),
            },
    {
        match self.find(id) {
            Some(i) => {
                let mut t = self.tasks[i].clone();
                t.total = total;
                t.message = String::from_str(message);
                self.replace_at(i, t)
            },
            None => None,
        }
    }

    /// Set a task's progress.
    pub fn set_progress(&mut self, id: &str, progress: u64) -> (r: Option<Task>)
        requires
            old(self).wf(),
        ensures
            final(self).wf(),
            match task_index(old(self).tasks(), id@) {
                Some(i) => {
                    let t = TaskV { progress, ..old(self).tasks()[i] };
                    r matches Some(x) && x@ == t && final(self).tasks() == old(self).tasks().update(i, t)
                },
                None => r is None && final(self).tasks() == old(self).tasks(),
            },
    {
        match self.find(id) {
            Some(i) => {
                let mut t = self.tasks[i].clone();
                t.progress = progress;
                self.replace_at(i, t)
            },
            None => None,
        }
    }

    fn replace_at(&mut self, i: usize, t: Task) -> (r: Option<Task>)
        requires
            old(self).wf(),
            i < old(self).tasks().len(),
            t@.id == old(self).tasks()[i as int].id,
        ensures
            final(self).wf(),
            r matches Some(x) && x@ == t@,
            final(self).tasks() == old(self).tasks().update(i as int, t@),
    {
        let snapshot = t.clone();
        let ghost o = self.tasks();
        let ghost tv = t@;
        self.tasks.set(i, t);
        assert(self.tasks() =~= o.update(i as int, tv));
        assert forall|a: int, b: int| 0 <= a < self.tasks().len() && 0 <= b < self.tasks().len() && a != b
            implies self.tasks()[a].id != self.tasks()[b].id by {
            if a != i { assert(self.tasks()[a] == o[a]); }
            if b != i { assert(self.tasks()[b] == o[b]); }
        }
        Some(snapshot)
    }

    /// Mark task `id` done at `now` with a message.
    pub fn finish_done_at(&mut self, id: &str, msg: &str, now: i64) -> (r: Option<Task>)
        requires
            old(self).wf(),
        ensures
            final(self).wf(),
            match task_index(old(self).tasks(), id@) {
                Some(i) => {
                    let t = done_task(old(self).tasks()[i], msg@, now);
                    r matches Some(x) && x@ == t && final(self).tasks() == old(self).tasks().update(i, t)
                },
                None => r is None && final(self).tasks() == old(self).tasks(),
            },
    {
        match self.find(id) {
            Some(i) => {
                let mut t = self.tasks[i].clone();
                t.status = TaskStatus::Done;
                t.message = String::from_str(msg);
                t.finished_at = Some(now);
                match t.total {
                    Some(total) => { t.progress = total; },
                    None => {},
                }
                self.replace_at(i, t)
            },
            None => None,
        }
    }

    /// Mark task `id` done now with a message.
    pub fn finish_done(&mut self, id: &str, msg: &str) -> (r: Option<Task>)
        requires
            old(self).wf(),
        ensures
            final(self).wf(),
            match task_index(old(self).tasks(), id@) {
                Some(i) => r matches Some(x) && {
                    let t = done_task(old(self).tasks()[i], msg@, x@.finished_at.unwrap());
                    x@ == t && final(self).tasks() == old(self).tasks().update(i, t)
                },
                None => r is None && final(self).tasks() == old(self).tasks(),
            },
    {
        let now = crate::clock::now_micros();
        self.finish_done_at(id, msg, now)
    }

    /// Mark task `id` failed at `now` with a message.
    pub fn finish_failed_at(&mut self, id: &str, msg: &str, now: i64) -> (r: Option<Task>)
        requires
            old(self).wf(),
        ensures
            final(self).wf(),
            match task_index(old(self).tasks(), id@) {
                Some(i) => {
                    let t = failed_task(old(self).tasks()[i], msg@, now);
                    r matches Some(x) && x@ == t && final(self).tasks() == old(self).tasks().update(i, t)
                },
                None => r is None && final(self).tasks() == old(self).tasks(),
            },
    {
        match self.find(id) {
            Some(i) => {
                let mut t = self.tasks[i].clone();
                t.status = TaskStatus::Failed;
                t.message = String::from_str(msg);
                t.finished_at = Some(now);
                self.replace_at(i, t)
            },
            None => None,
        }
    }

    /// Mark task `id` failed now with a message.
    pub fn finish_failed(&mut self, id: &str, msg: &str) -> (r: Option<Task>)
        requires
            old(self).wf(),
        ensures
            final(self).wf(),
            match task_index(old(self).tasks(), id@) {
                Some(i) => r matches Some(x) && {
                    let t = failed_task(old(self).tasks()[i], msg@, x@.finished_at.unwrap());
                    x@ == t && final(self).tasks() == old(self).tasks().update(i, t)
                },
                None => r is None && final(self).tasks() == old(self).tasks(),
            },
    {
        let now = crate::clock::now_micros();
        self.finish_failed_at(id, msg, now)
    }

    /// Every task, most recently started first; tasks started at the same
    /// time keep their order.
    pub fn list(&self) -> (r: Vec<Task>)
        ensures
            exists|perm: Seq<usize>| crate::order::is_permutation(perm, self.tasks().len())
                && crate::order::stable_descending(started_keys(self.tasks()), perm)
                && r@.len() == self.tasks().len()
                && forall|k: int| 0 <= k < r@.len() ==> (#[trigger] r@[k])@ == self.tasks()[perm[k] as int],
    {
        let mut keys: Vec<i128> = Vec::new();
        let mut i: usize = 0;
        while i < self.tasks.len()
            invariant
                i <= self.tasks@.len(),
                keys@ == started_keys(self.tasks().subrange(0, i as int)),
            decreases self.tasks@.len() - i,
        {
            keys.push(self.tasks[i].started_at as i128);
            assert(started_keys(self.tasks().subrange(0, i + 1))
                =~= started_keys(self.tasks().subrange(0, i as int)).push(self.tasks@[i as int].started_at as i128));
            i = i + 1;
        }
        assert(self.tasks().subrange(0, self.tasks@.len() as int) =~= self.tasks());
        let perm = crate::order::desc_order(&keys);
        let mut out: Vec<Task> = Vec::new();
        let mut k: usize = 0;
        while k < perm.len()
            invariant
                crate::order::is_permutation(perm@, self.tasks@.len()),
                k <= perm@.len(),
                out@.len() == k,
                forall|q: int| 0 <= q < k ==> (#[trigger] out@[q])@ == self.tasks()[perm@[q] as int],
            decreases perm@.len() - k,
        {
            out.push(self.tasks[perm[k]].clone());
            k = k + 1;
        }
        out
    }
}

} // verus!

verus! {

/// Whether a task with this id is in `s`.
pub open spec fn has_task_id(s: Seq<TaskV>, id: Seq<char>) -> bool {
    exists|j: int| 0 <= j < s.len() && s[j].id == id
}

/// Every task of `old` that is not kept started no later than every kept task.
pub open spec fn dropped_are_oldest(old: Seq<TaskV>, kept: Seq<TaskV>) -> bool {
    forall|i: int| 0 <= i < old.len() && !has_task_id(kept, #[trigger] old[i].id) ==>
        forall|j: int| 0 <= j < kept.len() ==> kept[j].started_at >= old[i].started_at
}

impl TaskRegistry {
    fn oldest_index(&self) -> (p: usize)
        requires
            self.tasks().len() > 0,
        ensures
            p < self.tasks().len(),
            forall|j: int| 0 <= j < self.tasks().len() ==> self.tasks()[j].started_at >= self.tasks()[p as int].started_at,
    {
        let mut p: usize = 0;
        let mut i: usize = 1;
        while i < self.tasks.len()
            invariant
                self.tasks@.len() > 0,
                p < i <= self.tasks@.len(),
                forall|j: int| 0 <= j < i ==> self.tasks()[j].started_at >= self.tasks()[p as int].started_at,
            decreases self.tasks@.len() - i,
        {
            if self.tasks[i].started_at < self.tasks[p].started_at {
                p = i;
            }
            i = i + 1;
        }
        p
    }

    /// Keep only the `keep` most recently started tasks.
    pub fn prune_old(&mut self, keep: usize)
        requires
            old(self).wf(),
        ensures
            final(self).wf(),
            old(self).tasks().len() <= keep ==> final(self).tasks() == old(self).tasks(),
            old(self).tasks().len() > keep ==> final(self).tasks().len() == keep,
            final(self).tasks().to_multiset().subset_of(old(self).tasks().to_multiset()),
            dropped_are_oldest(old(self).tasks(), final(self).tasks()),
    {
        let ghost orig = self.tasks();
        assert forall|i: int| 0 <= i < orig.len() && !has_task_id(orig, #[trigger] orig[i].id) implies
            forall|j: int| 0 <= j < orig.len() ==> orig[j].started_at >= orig[i].started_at by {
            assert(orig[i].id == orig[i].id);
        }
        while self.tasks.len() > keep
            invariant
                self.wf(),
                task_ids_unique(orig),
                self.tasks().to_multiset().subset_of(orig.to_multiset()),
                self.tasks().len() >= keep || self.tasks() == orig,
                orig.len() <= keep ==> self.tasks() == orig,
                dropped_are_oldest(orig, self.tasks()),
            decreases self.tasks@.len(),
        {
            let p = self.oldest_index();
            let ghost cur = self.tasks();
            let ghost m = cur[p as int];
            self.tasks.remove(p);
            proof {
                let next = self.tasks();
                assert(next =~= cur.remove(p as int));
                vstd::seq_lib::to_multiset_remove(cur, p as int);
                assert(next.to_multiset() =~= cur.to_multiset().remove(m));
                assert(next.to_multiset().subset_of(orig.to_multiset()));
                assert forall|a: int, b: int| 0 <= a < next.len() && 0 <= b < next.len() && a != b
                    implies next[a].id != next[b].id by {
                    let a2 = if a < p { a } else { a + 1 };
                    let b2 = if b < p { b } else { b + 1 };
                    assert(next[a] == cur[a2]);
                    assert(next[b] == cur[b2]);
                }
                assert forall|i: int| 0 <= i < orig.len() && !has_task_id(next, #[trigger] orig[i].id) implies
                    forall|j: int| 0 <= j < next.len() ==> next[j].started_at >= orig[i].started_at by {
                    if has_task_id(cur, orig[i].id) {
                        let k = choose|k: int| 0 <= k < cur.len() && cur[k].id == orig[i].id;
                        if k != p {
                            let k2 = if k < p { k } else { k - 1 };
                            assert(next[k2] == cur[k]);
                            assert(false);
                        }
                        assert(cur.to_multiset().count(m) > 0);
                        assert(orig.to_multiset().count(m) > 0);
                        assert(orig.contains(m));
                        let q = choose|q: int| 0 <= q < orig.len() && orig[q] == m;
                        assert(orig[q].id == orig[i].id);
                        assert(q == i);
                        assert forall|j: int| 0 <= j < next.len() implies next[j].started_at >= orig[i].started_at by {
                            let j2 = if j < p { j } else { j + 1 };
                            assert(next[j] == cur[j2]);
                        }
                    } else {
                        assert forall|j: int| 0 <= j < next.len() implies next[j].started_at >= orig[i].started_at by {
                            let j2 = if j < p { j } else { j + 1 };
                            assert(next[j] == cur[j2]);
                        }
                    }
                }
            }
        }
    }
}

} // verus!
