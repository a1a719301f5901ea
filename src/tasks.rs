use crate::text::texts;
use std::collections::{HashMap, HashSet};
use vstd::prelude::*;
use vstd::string::*;
use vstd::std_specs::hash::spec_hash_map_iter;
use vstd::std_specs::iter::IteratorSpec;

verus! {

broadcast use vstd::std_specs::hash::group_hash_axioms;

/// `std::io::ErrorKind`, a field-less enum whose variants verified code names.
#[verifier::external_type_specification]
pub struct ExErrorKind(std::io::ErrorKind);

/// Progress state of a task.
#[derive(Debug, Clone, Copy, PartialEq, Eq, Structural)]
pub enum Status {
    Upcoming,
    InProgress,
    Complete,
    StandBy,
}

/// The label under which a status is shown.
pub open spec fn status_label(s: Status) -> Seq<char> {
    match s {
        Status::Upcoming => "Upcoming"@,
        Status::InProgress => "InProgress"@,
        Status::Complete => "Complete"@,
        Status::StandBy => "StandBy"@,
    }
}

/// Formats a status as its label.
pub fn fmt_status(s: &Status) -> (r: &'static str)
    ensures
        r@ == status_label(*s),
{
    match s {
        Status::Upcoming => "Upcoming",
        Status::InProgress => "InProgress",
        Status::Complete => "Complete",
        Status::StandBy => "StandBy",
    }
}

/// Failure of a task repository operation.
#[derive(Debug, Clone, Copy, PartialEq, Eq, Structural)]
pub enum TaskError {
    /// No task has the requested id.
    NotFound,
}

impl TaskError {
    /// The I/O error kind this failure is reported as.
    pub fn kind(&self) -> (r: std::io::ErrorKind)
        ensures
            r == std::io::ErrorKind::NotFound,
    {
        std::io::ErrorKind::NotFound
    }
}

/// A single task.
#[derive(Debug)]
pub struct Task {
    pub id: u32,
    pub name: String,
    pub description: String,
    pub tags: HashSet<String>,
    pub status: Status,
}

/// The text of each string in a list of tags, as a set.
pub open spec fn tag_texts(tags: Seq<String>) -> Set<Seq<char>> {
    tags.map_values(|t: String| t@).to_set()
}

/// The text of each string in a tag set.
pub open spec fn set_texts(tags: Set<String>) -> Set<Seq<char>> {
    tags.map(|t: String| t@)
}

/// Relies on `HashSet::from_iter`: the set holds each string of the list,
/// duplicates collapsed, and nothing else.
#[verifier::external_body]
fn collect_tags(tags: Vec<String>) -> (r: HashSet<String>)
    ensures
        set_texts(r@) == tag_texts(tags@),
{
    tags.into_iter().collect()
}

/// Relies on `HashSet::contains`: whether some tag of the task equals `tag`.
#[verifier::external_body]
fn has_tag(task: &Task, tag: &String) -> (r: bool)
    ensures
        r == set_texts(task.tags@).contains(tag@),
{
    task.tags.contains(tag)
}

/// Whether a task passes an optional status filter and an optional tag filter.
pub open spec fn selected(t: Task, status: Option<Status>, tag: Option<Seq<char>>) -> bool {
    &&& (match status {
        Some(s) => t.status == s,
        None => true,
    })
    &&& (match tag {
        Some(g) => set_texts(t.tags@).contains(g),
        None => true,
    })
}

/// The view of an optional string.
pub open spec fn opt_view(s: Option<&String>) -> Option<Seq<char>> {
    match s {
        Some(x) => Some(x@),
        None => None,
    }
}

/// The tasks of `tasks` that have the given status, if one is given, and carry
/// the given tag, if one is given, keeping their order.
pub fn select_tasks<'a>(tasks: &Vec<&'a Task>, status: Option<Status>, tag: Option<&String>) -> (r:
    Vec<&'a Task>)
    ensures
        r@ == tasks@.filter(|t: &'a Task| selected(*t, status, opt_view(tag))),
{
    let ghost pred = |t: &'a Task| selected(*t, status, opt_view(tag));
    let mut r: Vec<&'a Task> = Vec::new();
    let mut i: usize = 0;
    while i < tasks.len()
        invariant
            i <= tasks@.len(),
            pred == (|t: &'a Task| selected(*t, status, opt_view(tag))),
            r@ == tasks@.take(i as int).filter(pred),
        decreases tasks@.len() - i,
    {
        let t = tasks[i];
        proof {
            assert(tasks@.take(i + 1) =~= tasks@.take(i as int).push(t));
            tasks@.take(i as int).lemma_filter_push(t, pred);
        }
        let status_ok = match status {
            Some(s) => t.status == s,
            None => true,
        };
        let tag_ok = match tag {
            Some(g) => has_tag(t, g),
            None => true,
        };
        if status_ok && tag_ok {
            r.push(t);
        }
        i = i + 1;
    }
    assert(tasks@.take(i as int) =~= tasks@);
    r
}

/// Relies on `HashSet::iter`, which visits each string of the set once: the
/// strings of the set, in the order visited.
#[verifier::external_body]
fn tag_list(tags: &HashSet<String>) -> (r: Vec<String>)
    ensures
        texts(r@).to_set() == set_texts(tags@),
        texts(r@).no_duplicates(),
{
    tags.iter().cloned().collect()
}

/// `a` comes no later than `b` in lexicographic order of code points, which
/// is the order `Ord` gives strings (UTF-8 bytes order as code points do).
pub open spec fn text_le(a: Seq<char>, b: Seq<char>) -> bool {
    ||| (a.len() <= b.len() && a == b.subrange(0, a.len() as int))
    ||| exists|i: int|
        0 <= i < a.len() && i < b.len() && a.subrange(0, i) == b.subrange(0, i) && (a[i] as u32) < (
        b[i] as u32)
}

/// The texts are in ascending order.
pub open spec fn texts_sorted(s: Seq<Seq<char>>) -> bool {
    forall|i: int, j: int| 0 <= i < j < s.len() ==> text_le(s[i], s[j])
}

/// Relies on `slice::sort_unstable` on strings: the same strings, in
/// ascending order.
#[verifier::external_body]
fn sort_strings(v: &mut Vec<String>)
    ensures
        texts(final(v)@).to_multiset() == texts(old(v)@).to_multiset(),
        texts_sorted(texts(final(v)@)),
{
    v.sort_unstable();
}

/// The parts separated by commas.
pub open spec fn comma_joined(parts: Seq<Seq<char>>) -> Seq<char>
    decreases parts.len(),
{
    if parts.len() == 0 {
        Seq::empty()
    } else if parts.len() == 1 {
        parts[0]
    } else {
        comma_joined(parts.drop_last()) + ","@ + parts.last()
    }
}

/// Joins the parts with commas between them.
pub fn join_with_commas(parts: &Vec<String>) -> (r: String)
    ensures
        r@ == comma_joined(texts(parts@)),
{
    let mut r = String::new();
    let mut i: usize = 0;
    while i < parts.len()
        invariant
            i <= parts@.len(),
            r@ == comma_joined(texts(parts@).take(i as int)),
        decreases parts@.len() - i,
    {
        assert(texts(parts@).take(i + 1).drop_last() =~= texts(parts@).take(i as int));
        if i > 0 {
            r.append(",");
        }
        r.append(parts[i].as_str());
        i = i + 1;
    }
    assert(texts(parts@).take(i as int) =~= texts(parts@));
    r
}

/// The tags of a task as shown in a table: each once, in ascending order,
/// separated by commas.
pub fn tags_column(task: &Task) -> (r: String)
    ensures
        exists|s: Seq<Seq<char>>|
            {
                &&& s.to_set() == set_texts(task.tags@)
                &&& s.no_duplicates()
                &&& texts_sorted(s)
                &&& r@ == comma_joined(s)
            },
{
    let mut tags = tag_list(&task.tags);
    let ghost l = texts(tags@);
    sort_strings(&mut tags);
    proof {
        let m = texts(tags@);
        l.lemma_multiset_has_no_duplicates();
        l.to_multiset_ensures();
        m.to_multiset_ensures();
        m.lemma_multiset_has_no_duplicates_conv();
        assert forall|x: Seq<char>| m.to_set().contains(x) <==> l.to_set().contains(x) by {
            assert(m.contains(x) <==> m.to_multiset().count(x) > 0);
            assert(l.contains(x) <==> l.to_multiset().count(x) > 0);
        }
        assert(m.to_set() =~= l.to_set());
    }
    join_with_commas(&tags)
}

/// A store of tasks keyed by id, with the id the next new task receives.
pub struct TaskRepo {
    pub tasks: HashMap<u32, Task>,
    pub next_id: u32,
}

impl TaskRepo {
    /// `next_id` is positive and above every key in use, so a new task never
    /// replaces a stored one.
    pub open spec fn wf(&self) -> bool {
        &&& 1 <= self.next_id
        &&& forall|k: u32| #[trigger] self.tasks@.contains_key(k) ==> k < self.next_id
    }

    /// Creates an empty repository whose first task gets id 1.
    pub fn new() -> (r: Self)
        ensures
            r.wf(),
            r.tasks@ == Map::<u32, Task>::empty(),
            r.next_id == 1,
    {
        TaskRepo { tasks: HashMap::new(), next_id: 1 }
    }

    /// Adds a task with the next id and status `Upcoming`, then advances the id.
    pub fn add_task(&mut self, name: String, description: String, tags: Vec<String>)
        requires
            old(self).wf(),
            old(self).next_id < u32::MAX,
        ensures
            final(self).wf(),
            final(self).next_id == old(self).next_id + 1,
            final(self).tasks@.contains_key(old(self).next_id),
            final(self).tasks@.remove(old(self).next_id) == old(self).tasks@,
            ({
                let t = final(self).tasks@[old(self).next_id];
                &&& t.id == old(self).next_id
                &&& t.name == name
                &&& t.description == description
                &&& set_texts(t.tags@) == tag_texts(tags@)
                &&& t.status == Status::Upcoming
            }),
    {
        let id = self.next_id;
        let task = Task { id, name, description, tags: collect_tags(tags), status: Status::Upcoming };
        self.tasks.insert(id, task);
        self.next_id = id + 1;
        assert(self.tasks@.remove(id) =~= old(self).tasks@);
    }

    /// All tasks, each once, in ascending order of task id.
    pub fn list_tasks(&self) -> (r: Vec<&Task>)
        ensures
            forall|i: int, j: int| 0 <= i < j < r@.len() ==> r@[i].id <= r@[j].id,
            exists|keys: Seq<u32>|
                {
                    &&& keys.len() == r@.len()
                    &&& keys.no_duplicates()
                    &&& forall|k: u32| keys.contains(k) <==> #[trigger] self.tasks@.contains_key(k)
                    &&& forall|i: int| 0 <= i < keys.len() ==> self.tasks@[keys[i]] == *r@[i]
                },
    {
        let mut r: Vec<&Task> = Vec::new();
        let ghost mut keys: Seq<u32> = Seq::empty();
        let ghost all = spec_hash_map_iter(&self.tasks).remaining();
        for entry in it: self.tasks.iter()
            invariant
                it.seq() == all,
                all == spec_hash_map_iter(&self.tasks).remaining(),
                all.no_duplicates(),
                keys.len() == r@.len(),
                keys.no_duplicates(),
                forall|i: int, j: int| 0 <= i < j < r@.len() ==> r@[i].id <= r@[j].id,
                forall|i: int| 0 <= i < keys.len() ==> self.tasks@.contains_key(#[trigger] keys[i]),
                forall|i: int| 0 <= i < keys.len() ==> self.tasks@[keys[i]] == *(#[trigger] r@[i]),
                forall|k: u32|
                    keys.contains(k) <==> exists|j: int| 0 <= j < it.index() && *all[j].0 == k,
        {
            let t: &Task = entry.1;
            let ghost k: u32 = *entry.0;
            let ghost n = it.index();
            proof {
                assert(all[n] == entry);
                assert(self.tasks@.contains_key(*all[n].0) && self.tasks@[*all[n].0] == *all[n].1);
                if keys.contains(k) {
                    let j = choose|j: int| 0 <= j < n && *all[j].0 == k;
                    assert(self.tasks@[*all[j].0] == *all[j].1);
                    assert(self.tasks@[*all[n].0] == *all[n].1);
                    assert(all[j] == all[n]);
                }
            }
            let mut pos: usize = 0;
            while pos < r.len() && r[pos].id <= t.id
                invariant
                    pos <= r@.len(),
                    forall|i: int| 0 <= i < pos ==> r@[i].id <= t.id,
                    forall|i: int, j: int| 0 <= i < j < r@.len() ==> r@[i].id <= r@[j].id,
                decreases r@.len() - pos,
            {
                pos = pos + 1;
            }
            let ghost old_r = r@;
            let ghost old_keys = keys;
            r.insert(pos, t);
            proof {
                keys = keys.insert(pos as int, k);
                assert forall|i: int, j: int| 0 <= i < j < r@.len() implies r@[i].id <= r@[j].id by {
                    if j < pos {
                        assert(r@[i] == old_r[i] && r@[j] == old_r[j]);
                    } else if j == pos {
                        assert(r@[i] == old_r[i]);
                    } else if i < pos {
                        assert(r@[i] == old_r[i] && r@[j] == old_r[j - 1]);
                    } else if i == pos {
                        assert(r@[j] == old_r[j - 1]);
                        assert(old_r[pos as int].id > t.id);
                        assert(old_r[pos as int].id <= old_r[j - 1].id);
                    } else {
                        assert(r@[i] == old_r[i - 1] && r@[j] == old_r[j - 1]);
                    }
                }
                assert forall|i: int| 0 <= i < keys.len() implies self.tasks@.contains_key(
                    #[trigger] keys[i]) && self.tasks@[keys[i]] == *r@[i] by {
                    if i < pos {
                        assert(keys[i] == old_keys[i] && r@[i] == old_r[i]);
                    } else if i > pos {
                        assert(keys[i] == old_keys[i - 1] && r@[i] == old_r[i - 1]);
                    } else {
                        assert(keys[i] == k && r@[i] == t);
                        assert(self.tasks@.contains_key(k) && self.tasks@[k] == *t);
                    }
                }
                assert forall|a: int, b: int| 0 <= a < keys.len() && 0 <= b < keys.len() && a != b
                    implies keys[a] != keys[b] by {
                    if a != pos && b != pos {
                        let a0 = if a < pos { a } else { a - 1 };
                        let b0 = if b < pos { b } else { b - 1 };
                        assert(keys[a] == old_keys[a0] && keys[b] == old_keys[b0]);
                    } else if a == pos {
                        let b0 = if b < pos { b } else { b - 1 };
                        assert(keys[b] == old_keys[b0]);
                        assert(old_keys.contains(keys[b]));
                    } else {
                        let a0 = if a < pos { a } else { a - 1 };
                        assert(keys[a] == old_keys[a0]);
                        assert(old_keys.contains(keys[a]));
                    }
                }
                assert forall|x: u32| keys.contains(x) implies old_keys.contains(x) || x == k by {
                    let i = keys.index_of(x);
                    if i < pos {
                        assert(keys[i] == old_keys[i]);
                    } else if i > pos {
                        assert(keys[i] == old_keys[i - 1]);
                    }
                }
                assert forall|x: u32| old_keys.contains(x) implies keys.contains(x) by {
                    let i = old_keys.index_of(x);
                    if i < pos {
                        assert(keys[i] == old_keys[i]);
                    } else {
                        assert(keys[i + 1] == old_keys[i]);
                    }
                }
                assert(keys[pos as int] == k);
            }
        }
        proof {
            assert forall|k: u32| keys.contains(k) <==> #[trigger] self.tasks@.contains_key(k) by {
                if self.tasks@.contains_key(k) {
                    assert(all.contains((&k, &self.tasks@[k])));
                    let j = all.index_of((&k, &self.tasks@[k]));
                    assert(*all[j].0 == k);
                }
                if keys.contains(k) {
                    let j = choose|j: int| 0 <= j < all.len() && *all[j].0 == k;
                    assert(self.tasks@.contains_key(*all[j].0));
                }
            }
        }
        r
    }

    /// Replaces each field of task `task_id` for which a new value is given.
    pub fn update_task(
        &mut self,
        task_id: u32,
        new_name: Option<String>,
        new_description: Option<String>,
        new_tags: Option<Vec<String>>,
        new_status: Option<Status>,
    ) -> (r: Result<(), TaskError>)
        requires
            old(self).wf(),
        ensures
            final(self).wf(),
            final(self).next_id == old(self).next_id,
            r is Err <==> !old(self).tasks@.contains_key(task_id),
            r is Err ==> r == Err::<(), TaskError>(TaskError::NotFound) && final(self).tasks@
                == old(self).tasks@,
            r is Ok ==> {
                &&& final(self).tasks@.contains_key(task_id)
                &&& final(self).tasks@.remove(task_id) == old(self).tasks@.remove(task_id)
                &&& ({
                    let t = final(self).tasks@[task_id];
                    let o = old(self).tasks@[task_id];
                    &&& t.id == o.id
                    &&& t.name == (match new_name {
                        Some(n) => n,
                        None => o.name,
                    })
                    &&& t.description == (match new_description {
                        Some(d) => d,
                        None => o.description,
                    })
                    &&& (match new_tags {
                        Some(v) => set_texts(t.tags@) == tag_texts(v@),
                        None => t.tags == o.tags,
                    })
                    &&& t.status == (match new_status {
                        Some(st) => st,
                        None => o.status,
                    })
                })
            },
    {
        match self.tasks.remove(&task_id) {
            None => Err(TaskError::NotFound),
            Some(mut task) => {
                if let Some(name) = new_name {
                    task.name = name;
                }
                if let Some(description) = new_description {
                    task.description = description;
                }
                if let Some(tags) = new_tags {
                    task.tags = collect_tags(tags);
                }
                if let Some(status) = new_status {
                    task.status = status;
                }
                self.tasks.insert(task_id, task);
                assert(self.tasks@.remove(task_id) =~= old(self).tasks@.remove(task_id));
                Ok(())
            },
        }
    }

    /// Marks task `task_id` as `Complete`.
    pub fn complete_task(&mut self, task_id: u32) -> (r: Result<(), TaskError>)
        requires
            old(self).wf(),
        ensures
            final(self).wf(),
            final(self).next_id == old(self).next_id,
            r is Err <==> !old(self).tasks@.contains_key(task_id),
            r is Err ==> r == Err::<(), TaskError>(TaskError::NotFound) && final(self).tasks@
                == old(self).tasks@,
            r is Ok ==> {
                &&& final(self).tasks@.contains_key(task_id)
                &&& final(self).tasks@.remove(task_id) == old(self).tasks@.remove(task_id)
                &&& ({
                    let t = final(self).tasks@[task_id];
                    let o = old(self).tasks@[task_id];
                    &&& t.id == o.id
                    &&& t.name == o.name
                    &&& t.description == o.description
                    &&& t.tags == o.tags
                    &&& t.status == Status::Complete
                })
            },
    {
        match self.tasks.remove(&task_id) {
            None => Err(TaskError::NotFound),
            Some(mut task) => {
                task.status = Status::Complete;
                self.tasks.insert(task_id, task);
                assert(self.tasks@.remove(task_id) =~= old(self).tasks@.remove(task_id));
                Ok(())
            },
        }
    }

    /// Deletes task `task_id`.
    pub fn remove_task(&mut self, task_id: u32) -> (r: Result<(), TaskError>)
        requires
            old(self).wf(),
        ensures
            final(self).wf(),
            final(self).next_id == old(self).next_id,
            final(self).tasks@ == old(self).tasks@.remove(task_id),
            r is Err <==> !old(self).tasks@.contains_key(task_id),
            r is Err ==> r == Err::<(), TaskError>(TaskError::NotFound),
    {
        match self.tasks.remove(&task_id) {
            Some(_) => Ok(()),
            None => {
                assert(self.tasks@ =~= old(self).tasks@.remove(task_id));
                Err(TaskError::NotFound)
            },
        }
    }

    /// A repository from stored parts, or `None` when a task is stored under
    /// key `u32::MAX`, above which no next id exists. The id of the next
    /// task is repaired to lie above every stored id: the larger of `next_id`
    /// and the largest stored key plus one, or 1 when no task is stored.
    pub fn from_parts(tasks: HashMap<u32, Task>, next_id: u32) -> (r: Option<Self>)
        ensures
            r is Some <==> !tasks@.contains_key(u32::MAX),
            r matches Some(repo) ==> {
                &&& repo.wf()
                &&& repo.tasks@ == tasks@
                &&& tasks@.dom().len() == 0 ==> repo.next_id == 1
                &&& tasks@.dom().len() > 0 ==> {
                    &&& repo.next_id >= next_id
                    &&& forall|k: u32| #[trigger] tasks@.contains_key(k) ==> k < repo.next_id
                    &&& (repo.next_id == next_id || tasks@.contains_key((repo.next_id - 1) as u32))
                }
            },
    {
        let mut next: u32 = next_id;
        let mut any = false;
        let mut ok = true;
        for entry in it: tasks.iter()
            invariant
                it.seq() == spec_hash_map_iter(&tasks).remaining(),
                next >= next_id,
                any == (it.index() > 0),
                ok == forall|j: int| 0 <= j < it.index() ==> *(#[trigger] it.seq()[j]).0 < u32::MAX,
                ok ==> forall|j: int| 0 <= j < it.index() ==> *(#[trigger] it.seq()[j]).0 < next,
                ok ==> (next == next_id || tasks@.contains_key((next - 1) as u32)),
        {
            let k = *entry.0;
            if k == u32::MAX {
                ok = false;
            } else if k >= next {
                next = k + 1;
            }
            any = true;
        }
        let ghost v = spec_hash_map_iter(&tasks).remaining();
        if !ok {
            proof {
                let j = choose|j: int| 0 <= j < v.len() && !(*v[j].0 < u32::MAX);
                assert(tasks@.contains_key(*v[j].0));
            }
            return None;
        }
        proof {
            assert forall|k: u32| #[trigger] tasks@.contains_key(k) implies k < next by {
                assert(v.contains((&k, &tasks@[k])));
                let j = v.index_of((&k, &tasks@[k]));
                assert(*v[j].0 == k);
            }
            assert(v.len() == tasks@.dom().len());
            assert(any == (v.len() > 0));
            if any {
                assert(tasks@.contains_key(*v[0].0));
            }
            if !any {
                if tasks@.dom().len() > 0 {
                    let k = tasks@.dom().choose();
                    assert(tasks@.contains_key(k));
                    assert(v.contains((&k, &tasks@[k])));
                }
            }
        }
        if !any {
            next = 1;
        }
        Some(TaskRepo { tasks, next_id: next })
    }
}

} // verus!
