//! Per-file session cache behind the desktop front end: each capture file is
//! opened once and its session reused for every later action on it.

use vstd::prelude::*;

use crate::text::text_equals;

verus! {

/// Index of the first entry whose path is `path`.
pub open spec fn find_path<S>(entries: Seq<(Seq<char>, S)>, path: Seq<char>, n: int) -> Option<int>
    decreases n,
{
    if n <= 0 {
        None
    } else {
        match find_path(entries, path, n - 1) {
            Some(j) => Some(j),
            None => if entries[n - 1].0 == path {
                Some(n - 1)
            } else {
                None
            },
        }
    }
}

/// No path occurs twice among `entries`.
pub open spec fn paths_distinct<S>(entries: Seq<(Seq<char>, S)>) -> bool {
    forall|i: int, j: int|
        0 <= i < j < entries.len() ==> #[trigger] entries[i].0 != #[trigger] entries[j].0
}

proof fn lemma_find_path<S>(entries: Seq<(Seq<char>, S)>, path: Seq<char>, n: int)
    requires
        0 <= n <= entries.len(),
    ensures
        find_path(entries, path, n) matches Some(j) ==> 0 <= j < n && entries[j].0 == path,
        find_path(entries, path, n) is None ==> forall|i: int| 0 <= i < n ==> #[trigger] entries[i].0 != path,
    decreases n,
{
    if n > 0 {
        lemma_find_path(entries, path, n - 1);
    }
}

proof fn lemma_find_path_push<S>(entries: Seq<(Seq<char>, S)>, x: (Seq<char>, S), path: Seq<char>, m: int)
    requires
        0 <= m <= entries.len(),
    ensures
        find_path(entries.push(x), path, m) == find_path(entries, path, m),
    decreases m,
{
    if m > 0 {
        lemma_find_path_push(entries, x, path, m - 1);
    }
}

/// Once a path's session has been opened and cached, the next lookup of that
/// path finds it, so it is not opened again.
pub proof fn lemma_opened_session_is_reused<S>(entries: Seq<(Seq<char>, S)>, path: Seq<char>, session: S)
    requires
        find_path(entries, path, entries.len() as int) is None,
    ensures
        find_path(entries.push((path, session)), path, entries.len() + 1int) == Some(entries.len() as int),
        entries.push((path, session))[entries.len() as int].1 == session,
{
    lemma_find_path_push(entries, (path, session), path, entries.len() as int);
}

/// Open sessions, keyed by the path they were opened from.
pub struct AppState<S> {
    sessions: Vec<(String, S)>,
}

impl<S> AppState<S> {
    /// The cached sessions with their paths, oldest first.
    pub closed spec fn entries(&self) -> Seq<(Seq<char>, S)> {
        Seq::new(self.sessions@.len(), |i: int| (self.sessions@[i].0@, self.sessions@[i].1))
    }

    /// Each path is cached at most once.
    pub open spec fn wf(&self) -> bool {
        paths_distinct(self.entries())
    }

    /// An empty cache.
    pub fn new() -> (s: AppState<S>)
        ensures
            s.wf(),
            s.entries() == Seq::<(Seq<char>, S)>::empty(),
    {
        let s = AppState { sessions: Vec::new() };
        assert(s.entries() =~= Seq::<(Seq<char>, S)>::empty());
        s
    }

    /// Run `f` on the session for `path`, opening it with `open` and caching it
    /// first when it is not cached yet. A failed open is reported and nothing
    /// is cached.
    pub fn with_session<T, O, F>(&mut self, path: &str, open: O, f: F) -> (res: Result<T, String>) where
        O: FnOnce(&str) -> Result<S, String>,
        F: FnOnce(&S) -> Result<T, String>,

        requires
            old(self).wf(),
            call_requires(open, (path,)),
            forall|s: &S| call_requires(f, (s,)),
        ensures
            final(self).wf(),
            match find_path(old(self).entries(), path@, old(self).entries().len() as int) {
                Some(j) => final(self).entries() == old(self).entries() && call_ensures(
                    f,
                    (&old(self).entries()[j].1,),
                    res,
                ),
                None => exists|opened: Result<S, String>|
                    call_ensures(open, (path,), opened) && match opened {
                        Ok(s) => final(self).entries() == old(self).entries().push((path@, s))
                            && call_ensures(f, (&s,), res),
                        Err(e) => final(self).entries() == old(self).entries() && res == Err::<
                            T,
                            String,
                        >(e),
                    },
            },
    {
        let ghost entries0 = self.entries();
        let n: usize = self.sessions.len();
        let mut found: Option<usize> = None;
        let mut i: usize = 0;
        while i < n
            invariant
                n == self.sessions@.len(),
                entries0 == self.entries(),
                entries0.len() == n,
                0 <= i <= n,
                found is None ==> find_path(entries0, path@, i as int) is None,
                found matches Some(j) ==> find_path(entries0, path@, n as int) == Some(j as int),
            decreases n - i,
        {
            if found.is_none() {
                let hit: bool = text_equals(self.sessions[i].0.as_str(), path);
                if hit {
                    proof {
                        lemma_find_path(entries0, path@, i as int);
                        assert(find_path(entries0, path@, i as int + 1) == Some(i as int));
                        lemma_find_prefix_stable(entries0, path@, i as int + 1, n as int);
                    }
                    found = Some(i);
                }
            }
            i = i + 1;
        }
        match found {
            Some(j) => {
                proof {
                    lemma_find_path(entries0, path@, n as int);
                }
                let s: &S = &self.sessions[j].1;
                assert(*s == entries0[j as int].1);
                f(s)
            },
            None => {
                proof {
                    lemma_find_path(entries0, path@, n as int);
                }
                let opened: Result<S, String> = open(path);
                let ghost outcome = opened;
                assert(call_ensures(open, (path,), outcome));
                match opened {
                    Ok(session) => {
                        let mut key: String = String::new();
                        key.append(path);
                        self.sessions.push((key, session));
                        proof {
                            assert(self.entries() =~= entries0.push((path@, session)));
                            assert(paths_distinct(self.entries())) by {
                                assert forall|a: int, b: int|
                                    0 <= a < b < self.entries().len() implies #[trigger] self.entries()[a].0
                                    != #[trigger] self.entries()[b].0 by {
                                    if b < n {
                                        assert(self.entries()[a] == entries0[a]);
                                        assert(self.entries()[b] == entries0[b]);
                                    } else {
                                        assert(self.entries()[a] == entries0[a]);
                                    }
                                }
                            }
                        }
                        let k: usize = self.sessions.len() - 1;
                        let s: &S = &self.sessions[k].1;
                        f(s)
                    },
                    Err(e) => Err(e),
                }
            },
        }
    }
}

proof fn lemma_find_prefix_stable<S>(entries: Seq<(Seq<char>, S)>, path: Seq<char>, m: int, n: int)
    requires
        0 <= m <= n,
        find_path(entries, path, m) is Some,
    ensures
        find_path(entries, path, n) == find_path(entries, path, m),
    decreases n - m,
{
    if m < n {
        lemma_find_prefix_stable(entries, path, m, n - 1);
    }
}

} // verus!
