use vstd::prelude::*;

verus! {

/// A project process that the daemon started and still keeps track of.
#[derive(Debug, Clone, PartialEq, Eq)]
pub struct Proc {
    /// The project's name, which identifies the process.
    pub name: String,
    /// The operating system's id of the process.
    pub pid: u32,
    /// The file that the process's terminal output is logged to.
    pub log_file: String,
}

/// What a [`Proc`] stands for.
pub struct ProcView {
    pub name: Seq<char>,
    pub pid: u32,
    pub log_file: Seq<char>,
}

impl View for Proc {
    type V = ProcView;

    open spec fn view(&self) -> ProcView {
        ProcView { name: self.name@, pid: self.pid, log_file: self.log_file@ }
    }
}

/// The views of a sequence of processes.
pub open spec fn proc_views(v: Seq<Proc>) -> Seq<ProcView> {
    v.map_values(|p: Proc| p@)
}

/// No two entries of `s` carry the same name.
pub open spec fn names_distinct(s: Seq<ProcView>) -> bool {
    forall|i: int, j: int| 0 <= i < s.len() && 0 <= j < s.len() && i != j ==> s[i].name != s[j].name
}

/// Whether an entry of `s` carries `name`.
pub open spec fn has_name(s: Seq<ProcView>, name: Seq<char>) -> bool {
    exists|i: int| 0 <= i < s.len() && s[i].name == name
}

/// The entry of `s` that carries `name`, if there is one.
pub open spec fn lookup(s: Seq<ProcView>, name: Seq<char>) -> Option<ProcView> {
    if has_name(s, name) {
        Some(s[choose|i: int| 0 <= i < s.len() && s[i].name == name])
    } else {
        None
    }
}

/// The entries of `s` whose flag in `alive` is set, in order.
pub open spec fn keep_alive(s: Seq<ProcView>, alive: Seq<bool>) -> Seq<ProcView>
    decreases s.len(),
{
    if s.len() == 0 {
        s
    } else {
        let kept = keep_alive(s.drop_last(), alive);
        if alive[s.len() - 1] {
            kept.push(s.last())
        } else {
            kept
        }
    }
}

/// `s` with `p` stored under its name: an entry with that name is replaced
/// in place, otherwise `p` is added at the end.
pub open spec fn upsert(s: Seq<ProcView>, p: ProcView) -> Seq<ProcView> {
    if has_name(s, p.name) {
        s.update(choose|i: int| 0 <= i < s.len() && s[i].name == p.name, p)
    } else {
        s.push(p)
    }
}

/// `s` without the entry that carries `name`.
pub open spec fn without(s: Seq<ProcView>, name: Seq<char>) -> Seq<ProcView> {
    if has_name(s, name) {
        s.remove(choose|i: int| 0 <= i < s.len() && s[i].name == name)
    } else {
        s
    }
}

/// In a table with distinct names, the index that carries a name is unique.
pub proof fn lemma_index_unique(s: Seq<ProcView>, name: Seq<char>, i: int)
    requires
        names_distinct(s),
        0 <= i < s.len(),
        s[i].name == name,
    ensures
        (choose|j: int| 0 <= j < s.len() && s[j].name == name) == i,
        lookup(s, name) == Some(s[i]),
{
}

/// The position in `procs` of the process named `name`, if there is one.
fn position_of(procs: &Vec<Proc>, name: &String) -> (r: Option<usize>)
    ensures
        match r {
            Some(i) => i < procs@.len() && procs@[i as int]@.name == name@,
            None => !has_name(proc_views(procs@), name@),
        },
{
    let mut k: usize = 0;
    while k < procs.len()
        invariant
            0 <= k <= procs@.len(),
            forall|j: int| 0 <= j < k ==> procs@[j]@.name != name@,
        decreases procs@.len() - k,
    {
        if procs[k].name == *name {
            return Some(k);
        }
        k += 1;
    }
    None
}

/// Storing a process makes it the one found under its name, and leaves
/// what is found under every other name as it was; names stay distinct.
pub proof fn law_lookup_after_insert(s: Seq<ProcView>, p: ProcView, other: Seq<char>)
    requires
        names_distinct(s),
        other != p.name,
    ensures
        names_distinct(upsert(s, p)),
        lookup(upsert(s, p), p.name) == Some(p),
        lookup(upsert(s, p), other) == lookup(s, other),
{
    let u = upsert(s, p);
    if has_name(s, p.name) {
        let i = choose|i: int| 0 <= i < s.len() && s[i].name == p.name;
        assert(u[i] == p);
        lemma_index_unique(u, p.name, i);
        if has_name(s, other) {
            let j = choose|j: int| 0 <= j < s.len() && s[j].name == other;
            assert(u[j] == s[j]);
            lemma_index_unique(u, other, j);
        } else {
            assert forall|j: int| 0 <= j < u.len() implies u[j].name != other by {
                if j != i {
                    assert(u[j] == s[j]);
                }
            }
        }
    } else {
        let i = s.len() as int;
        assert(u[i] == p);
        assert(names_distinct(u));
        lemma_index_unique(u, p.name, i);
        if has_name(s, other) {
            let j = choose|j: int| 0 <= j < s.len() && s[j].name == other;
            assert(u[j] == s[j]);
            lemma_index_unique(u, other, j);
        } else {
            assert forall|j: int| 0 <= j < u.len() implies u[j].name != other by {
                if j != i {
                    assert(u[j] == s[j]);
                }
            }
        }
    }
}

/// Dropping the process named `name` leaves none under that name, and
/// leaves what is found under every other name as it was.
pub proof fn law_lookup_after_remove(s: Seq<ProcView>, name: Seq<char>, other: Seq<char>)
    requires
        names_distinct(s),
        other != name,
    ensures
        names_distinct(without(s, name)),
        lookup(without(s, name), name) is None,
        lookup(without(s, name), other) == lookup(s, other),
{
    let w = without(s, name);
    if has_name(s, name) {
        let i = choose|i: int| 0 <= i < s.len() && s[i].name == name;
        assert forall|a: int| 0 <= a < w.len() implies #[trigger] w[a] == (if a < i { s[a] } else { s[a + 1] }) by {}
        assert(!has_name(w, name)) by {
            assert forall|a: int| 0 <= a < w.len() implies w[a].name != name by {
                if a < i {
                    assert(w[a] == s[a]);
                } else {
                    assert(w[a] == s[a + 1]);
                }
            }
        }
        if has_name(s, other) {
            let j = choose|j: int| 0 <= j < s.len() && s[j].name == other;
            let k = if j < i { j } else { j - 1 };
            assert(w[k] == s[j]);
            lemma_index_unique(w, other, k);
        } else {
            assert forall|a: int| 0 <= a < w.len() implies w[a].name != other by {
                if a < i {
                    assert(w[a] == s[a]);
                } else {
                    assert(w[a] == s[a + 1]);
                }
            }
        }
    }
}

/// Cleaning keeps exactly the processes that still run: a name is kept
/// when, and only when, the process under it is flagged alive.
pub proof fn law_clean_keeps_live(s: Seq<ProcView>, alive: Seq<bool>, i: int)
    requires
        names_distinct(s),
        alive.len() == s.len(),
        0 <= i < s.len(),
    ensures
        names_distinct(keep_alive(s, alive)),
        has_name(keep_alive(s, alive), s[i].name) == alive[i],
{
    lemma_keep_alive_members(s, alive);
    let k = keep_alive(s, alive);
    if alive[i] {
        let j = choose|j: int| 0 <= j < k.len() && k[j] == s[i];
        assert(k[j].name == s[i].name);
    } else {
        if has_name(k, s[i].name) {
            let j = choose|j: int| 0 <= j < k.len() && k[j].name == s[i].name;
            let b = choose|b: int| 0 <= b < s.len() && alive[b] && k[j] == s[b];
            assert(s[b].name == s[i].name);
        }
    }
}

/// Whether `p` is an entry of `s` flagged alive.
spec fn kept_from(s: Seq<ProcView>, alive: Seq<bool>, p: ProcView) -> bool {
    exists|b: int| 0 <= b < s.len() && alive[b] && p == s[b]
}

/// The entries that cleaning keeps are the entries flagged alive, with
/// their names still distinct.
proof fn lemma_keep_alive_members(s: Seq<ProcView>, alive: Seq<bool>)
    requires
        names_distinct(s),
        alive.len() >= s.len(),
    ensures
        names_distinct(keep_alive(s, alive)),
        forall|j: int| 0 <= j < keep_alive(s, alive).len() ==> kept_from(s, alive, #[trigger] keep_alive(s, alive)[j]),
        forall|b: int| 0 <= b < s.len() && alive[b] ==> keep_alive(s, alive).contains(#[trigger] s[b]),
    decreases s.len(),
{
    if s.len() > 0 {
        let t = s.drop_last();
        let last = s.len() - 1;
        lemma_keep_alive_members(t, alive);
        assert forall|b: int| 0 <= b < last implies t[b] == s[b] by {}
        assert forall|j: int| 0 <= j < keep_alive(s, alive).len() implies kept_from(s, alive, #[trigger] keep_alive(s, alive)[j]) by {
            if j < keep_alive(t, alive).len() {
                assert(keep_alive(s, alive)[j] == keep_alive(t, alive)[j]);
                let b = choose|b: int| 0 <= b < t.len() && alive[b] && keep_alive(t, alive)[j] == t[b];
                assert(keep_alive(s, alive)[j] == s[b]);
            } else {
                assert(alive[last] && keep_alive(s, alive)[j] == s[last]);
            }
        }
        assert forall|b: int| 0 <= b < s.len() && alive[b] implies keep_alive(s, alive).contains(#[trigger] s[b]) by {
            if b < last {
                assert(t[b] == s[b]);
                let j = choose|j: int| 0 <= j < keep_alive(t, alive).len() && keep_alive(t, alive)[j] == t[b];
                assert(keep_alive(s, alive)[j] == s[b]);
            } else {
                let j = keep_alive(t, alive).len() as int;
                assert(keep_alive(s, alive)[j] == s[b]);
            }
        }
        assert forall|a: int, c: int| 0 <= a < keep_alive(s, alive).len() && 0 <= c < keep_alive(s, alive).len() && a != c implies keep_alive(s, alive)[a].name != keep_alive(s, alive)[c].name by {
            let n = keep_alive(t, alive).len() as int;
            if a == n {
                let b = choose|b: int| 0 <= b < t.len() && alive[b] && keep_alive(t, alive)[c] == t[b];
                assert(keep_alive(s, alive)[c] == s[b]);
                assert(keep_alive(s, alive)[a] == s[last]);
            } else if c == n {
                let b = choose|b: int| 0 <= b < t.len() && alive[b] && keep_alive(t, alive)[a] == t[b];
                assert(keep_alive(s, alive)[a] == s[b]);
                assert(keep_alive(s, alive)[c] == s[last]);
            } else {
                assert(keep_alive(s, alive)[a] == keep_alive(t, alive)[a]);
                assert(keep_alive(s, alive)[c] == keep_alive(t, alive)[c]);
            }
        }
    }
}

/// The processes of the daemon, at most one per project name.
pub struct ProcTable {
    procs: Vec<Proc>,
}

impl View for ProcTable {
    type V = Seq<ProcView>;

    closed spec fn view(&self) -> Seq<ProcView> {
        proc_views(self.procs@)
    }
}

impl ProcTable {
    #[verifier::type_invariant]
    closed spec fn distinct(self) -> bool {
        names_distinct(proc_views(self.procs@))
    }

    /// An empty table.
    pub fn new() -> (t: ProcTable)
        ensures
            t@ == Seq::<ProcView>::empty(),
    {
        let t = ProcTable { procs: Vec::new() };
        assert(t@ =~= Seq::<ProcView>::empty());
        t
    }

    /// The number of processes.
    pub fn len(&self) -> (n: usize)
        ensures
            n == self@.len(),
            names_distinct(self@),
    {
        proof {
            use_type_invariant(self);
        }
        self.procs.len()
    }

    /// The process at position `i`.
    pub fn at(&self, i: usize) -> (p: &Proc)
        requires
            i < self@.len(),
        ensures
            p@ == self@[i as int],
    {
        &self.procs[i]
    }

    /// The position of the process named `name`, if there is one.
    pub fn find(&self, name: &String) -> (r: Option<usize>)
        ensures
            match r {
                Some(i) => i < self@.len() && self@[i as int].name == name@,
                None => !has_name(self@, name@),
            },
    {
        position_of(&self.procs, name)
    }

    /// Whether a process named `name` is kept.
    pub fn contains(&self, name: &String) -> (b: bool)
        ensures
            b == has_name(self@, name@),
    {
        self.find(name).is_some()
    }

    /// The process named `name`, if there is one.
    pub fn get(&self, name: &String) -> (r: Option<&Proc>)
        ensures
            match r {
                Some(p) => lookup(self@, name@) == Some(p@),
                None => lookup(self@, name@) is None,
            },
    {
        proof {
            use_type_invariant(self);
        }
        match self.find(name) {
            Some(i) => {
                proof {
                    lemma_index_unique(self@, name@, i as int);
                }
                Some(&self.procs[i])
            },
            None => None,
        }
    }

    /// Drops the processes whose flag in `alive` is not set; `alive[i]` tells
    /// whether the process at position `i` still runs.
    pub fn clean_procs(&mut self, alive: &Vec<bool>)
        requires
            alive@.len() == old(self)@.len(),
        ensures
            final(self)@ == keep_alive(old(self)@, alive@),
    {
        proof {
            use_type_invariant(&*self);
        }
        let ghost s = self@;
        let n = self.procs.len();
        let mut kept: Vec<Proc> = Vec::new();
        let mut k: usize = 0;
        assert(s.take(0) =~= Seq::<ProcView>::empty());
        while k < n
            invariant
                0 <= k <= n == self.procs@.len(),
                s == proc_views(self.procs@),
                alive@.len() == n,
                names_distinct(s),
                proc_views(kept@) == keep_alive(s.take(k as int), alive@),
                forall|a: int, b: int| 0 <= a < kept@.len() && k <= b < n ==> #[trigger] proc_views(kept@)[a].name != #[trigger] s[b].name,
                names_distinct(proc_views(kept@)),
            decreases n - k,
        {
            assert(s.take(k + 1).drop_last() =~= s.take(k as int));
            if alive[k] {
                let p = Proc {
                    name: self.procs[k].name.clone(),
                    pid: self.procs[k].pid,
                    log_file: self.procs[k].log_file.clone(),
                };
                let ghost old_kept = kept@;
                kept.push(p);
                assert(proc_views(kept@) =~= proc_views(old_kept).push(p@));
                assert(p@ == s[k as int]);
                assert forall|a: int, b: int| 0 <= a < kept@.len() && k + 1 <= b < n implies #[trigger] proc_views(kept@)[a].name != #[trigger] s[b].name by {
                    if a < kept@.len() - 1 {
                        assert(proc_views(kept@)[a] == proc_views(old_kept)[a]);
                    }
                }
                assert forall|a: int, c: int| 0 <= a < kept@.len() && 0 <= c < kept@.len() && a != c implies proc_views(kept@)[a].name != proc_views(kept@)[c].name by {
                    if a == kept@.len() - 1 {
                        assert(proc_views(kept@)[c] == proc_views(old_kept)[c]);
                        assert(proc_views(old_kept)[c].name != s[k as int].name);
                    } else if c == kept@.len() - 1 {
                        assert(proc_views(kept@)[a] == proc_views(old_kept)[a]);
                        assert(proc_views(old_kept)[a].name != s[k as int].name);
                    } else {
                        assert(proc_views(kept@)[a] == proc_views(old_kept)[a]);
                        assert(proc_views(kept@)[c] == proc_views(old_kept)[c]);
                    }
                }
            }
            k += 1;
        }
        assert(s.take(n as int) =~= s);
        self.procs = kept;
    }

    /// Stores `p` under its name (`HashMap::insert`): a process with that
    /// name is replaced in place, otherwise `p` is added.
    pub fn insert(&mut self, p: Proc)
        ensures
            final(self)@ == upsert(old(self)@, p@),
    {
        proof {
            use_type_invariant(&*self);
        }
        let ghost s = self@;
        let mut procs: Vec<Proc> = Vec::new();
        std::mem::swap(&mut procs, &mut self.procs);
        assert(proc_views(procs@) == s);
        match position_of(&procs, &p.name) {
            Some(i) => {
                proof {
                    lemma_index_unique(s, p.name@, i as int);
                }
                procs.set(i, p);
                assert(proc_views(procs@) =~= s.update(i as int, p@));
            },
            None => {
                procs.push(p);
                assert(proc_views(procs@) =~= s.push(p@));
            },
        }
        self.procs = procs;
    }

    /// Drops the process named `name` and returns it (`HashMap::remove`).
    pub fn remove(&mut self, name: &String) -> (r: Option<Proc>)
        ensures
            final(self)@ == without(old(self)@, name@),
            match r {
                Some(p) => lookup(old(self)@, name@) == Some(p@),
                None => lookup(old(self)@, name@) is None,
            },
    {
        proof {
            use_type_invariant(&*self);
        }
        let ghost s = self@;
        let mut procs: Vec<Proc> = Vec::new();
        std::mem::swap(&mut procs, &mut self.procs);
        assert(proc_views(procs@) == s);
        match position_of(&procs, name) {
            Some(i) => {
                proof {
                    lemma_index_unique(s, name@, i as int);
                }
                let p = procs.remove(i);
                assert(proc_views(procs@) =~= s.remove(i as int));
                self.procs = procs;
                Some(p)
            },
            None => {
                self.procs = procs;
                None
            },
        }
    }
}

} // verus!
