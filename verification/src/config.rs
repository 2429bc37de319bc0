use crate::track::str_views;
use vstd::prelude::*;

verus! {

/// Whether the paths `a` and `b` are equal as paths, that is component by
/// component (so `a/b` and `a//b/` are the same path).
pub uninterp spec fn spec_paths_equal(a: Seq<char>, b: Seq<char>) -> bool;

/// Compares two paths with `std::path::Path`'s `==`, which compares their
/// components. The result is named `spec_paths_equal`; the contract adds the
/// one fact that two paths with the same text are equal.
#[verifier::external_body]
pub(crate) fn paths_equal(a: &str, b: &str) -> (r: bool)
    ensures
        r == spec_paths_equal(a@, b@),
        a@ == b@ ==> r,
{
    std::path::Path::new(a) == std::path::Path::new(b)
}

/// Whether some directory of `dirs` is the path `d`.
pub open spec fn has_dir(dirs: Seq<Seq<char>>, d: Seq<char>) -> bool {
    exists|i: int| 0 <= i < dirs.len() && spec_paths_equal(dirs[i], d)
}

/// The directories of `dirs` that are not the path `d`, in their order.
pub open spec fn dirs_without(dirs: Seq<Seq<char>>, d: Seq<char>) -> Seq<Seq<char>>
    decreases dirs.len(),
{
    if dirs.len() == 0 {
        Seq::empty()
    } else {
        let rest = dirs_without(dirs.drop_last(), d);
        if spec_paths_equal(dirs.last(), d) {
            rest
        } else {
            rest.push(dirs.last())
        }
    }
}

/// `c1` is `c0` after adding the directory `d`; `changed` tells whether it was new.
pub open spec fn dir_added(c0: Seq<Seq<char>>, d: Seq<char>, changed: bool, c1: Seq<Seq<char>>) -> bool {
    &&& changed == !has_dir(c0, d)
    &&& c1 == if changed {
        c0.push(d)
    } else {
        c0
    }
}

/// The user configuration: the directories shown in the file browser.
pub struct Config {
    directories: Vec<String>,
}

impl View for Config {
    type V = Seq<Seq<char>>;

    closed spec fn view(&self) -> Seq<Seq<char>> {
        str_views(self.directories@)
    }
}

impl Config {
    /// A configuration without directories.
    pub fn new() -> (c: Self)
        ensures
            c@ == Seq::<Seq<char>>::empty(),
    {
        let c = Config { directories: Vec::new() };
        assert(c@ =~= Seq::<Seq<char>>::empty());
        c
    }

    /// A configuration holding the directories `dirs`, as loaded from disk.
    pub fn from_dirs(dirs: Vec<String>) -> (c: Self)
        ensures
            c@ == str_views(dirs@),
    {
        Config { directories: dirs }
    }

    /// Whether the configuration holds the directory `dir`.
    pub fn contains_dir(&self, dir: &String) -> (r: bool)
        ensures
            r == has_dir(self@, dir@),
    {
        let mut i: usize = 0;
        while i < self.directories.len()
            invariant
                i <= self.directories.len(),
                forall|j: int| 0 <= j < i ==> !spec_paths_equal(self@[j], dir@),
            decreases self.directories.len() - i,
        {
            if paths_equal(self.directories[i].as_str(), dir.as_str()) {
                assert(self@[i as int] == self.directories@[i as int]@);
                assert(spec_paths_equal(self@[i as int], dir@));
                return true;
            }
            i = i + 1;
        }
        false
    }

    /// Adds the directory `dir` unless it is already there. Returns whether the
    /// configuration changed, in which case it is to be saved.
    pub fn add_dir(&mut self, dir: String) -> (changed: bool)
        ensures
            dir_added(old(self)@, dir@, changed, final(self)@),
    {
        if !self.contains_dir(&dir) {
            self.directories.push(dir);
            assert(self@ =~= old(self)@.push(dir@));
            true
        } else {
            false
        }
    }

    /// Removes the directory `dir`; the configuration is then to be saved.
    pub fn remove_dir(&mut self, dir: &String)
        ensures
            final(self)@ == dirs_without(old(self)@, dir@),
    {
        let ghost all = self@;
        let mut kept: Vec<String> = Vec::new();
        let mut i: usize = 0;
        while i < self.directories.len()
            invariant
                i <= self.directories.len(),
                self@ == all,
                str_views(kept@) == dirs_without(all.take(i as int), dir@),
            decreases self.directories.len() - i,
        {
            assert(all.take(i + 1).drop_last() == all.take(i as int));
            assert(all.take(i + 1).last() == all[i as int]);
            let ghost k0 = str_views(kept@);
            assert(all[i as int] == self.directories@[i as int]@);
            if !paths_equal(self.directories[i].as_str(), dir.as_str()) {
                kept.push(self.directories[i].clone());
                assert(str_views(kept@) == k0.push(all[i as int]));
            }
            i = i + 1;
        }
        assert(all.take(i as int) == all);
        self.directories = kept;
    }

    /// The directories, in the order they were added.
    pub fn list_dirs(&self) -> (r: Vec<String>)
        ensures
            str_views(r@) == self@,
    {
        crate::track::clone_strings(&self.directories)
    }
}

/// Adding the same directory twice: the second addition changes nothing.
pub proof fn law_add_dir_twice(
    c0: Seq<Seq<char>>,
    d: Seq<char>,
    changed1: bool,
    c1: Seq<Seq<char>>,
    changed2: bool,
    c2: Seq<Seq<char>>,
)
    requires
        spec_paths_equal(d, d),
        dir_added(c0, d, changed1, c1),
        dir_added(c1, d, changed2, c2),
    ensures
        !changed2,
        c2 == c1,
{
    if changed1 {
        assert(c1[c0.len() as int] == d);
    } else {
        assert(has_dir(c0, d));
    }
}

/// After removing a directory, no directory left is that path.
pub proof fn law_remove_dir(dirs: Seq<Seq<char>>, d: Seq<char>)
    ensures
        !has_dir(dirs_without(dirs, d), d),
    decreases dirs.len(),
{
    if dirs.len() > 0 {
        law_remove_dir(dirs.drop_last(), d);
        let rest = dirs_without(dirs.drop_last(), d);
        if !spec_paths_equal(dirs.last(), d) {
            assert forall|i: int| 0 <= i < rest.push(dirs.last()).len() implies !spec_paths_equal(
                rest.push(dirs.last())[i],
                d,
            ) by {
                if i < rest.len() {
                    assert(rest.push(dirs.last())[i] == rest[i]);
                }
            }
        }
    }
}


/// How many directories of `dirs` are not the path `d`.
pub open spec fn other_dirs_count(dirs: Seq<Seq<char>>, d: Seq<char>) -> nat
    decreases dirs.len(),
{
    if dirs.len() == 0 {
        0
    } else {
        other_dirs_count(dirs.drop_last(), d) + if spec_paths_equal(dirs.last(), d) {
            0nat
        } else {
            1nat
        }
    }
}

/// Removing the directory `d` keeps every directory that is not that path,
/// in their order, and nothing else: as many directories are left as there
/// were directories other than `d`, and the directory at a position `p` that
/// is not `d` is found at the position that counts the directories before `p`
/// that are not `d`.
pub proof fn law_remove_dir_keeps_others(dirs: Seq<Seq<char>>, d: Seq<char>)
    ensures
        dirs_without(dirs, d).len() == other_dirs_count(dirs, d),
        forall|p: int|
            0 <= p < dirs.len() && !spec_paths_equal(dirs[p], d) ==> other_dirs_count(dirs.take(p), d)
                < dirs_without(dirs, d).len() && dirs_without(dirs, d)[other_dirs_count(
                dirs.take(p),
                d,
            ) as int] == #[trigger] dirs[p],
    decreases dirs.len(),
{
    if dirs.len() > 0 {
        let r = dirs.drop_last();
        let last = dirs.len() - 1;
        law_remove_dir_keeps_others(r, d);
        let rest = dirs_without(r, d);
        assert forall|p: int|
            0 <= p < dirs.len() && !spec_paths_equal(dirs[p], d) implies other_dirs_count(dirs.take(p), d)
                < dirs_without(dirs, d).len() && dirs_without(dirs, d)[other_dirs_count(
                dirs.take(p),
                d,
            ) as int] == #[trigger] dirs[p] by {
            if p < last {
                assert(r.take(p) =~= dirs.take(p));
                assert(r[p] == dirs[p]);
                assert(rest[other_dirs_count(r.take(p), d) as int] == r[p]);
            } else {
                assert(dirs.take(p) =~= r);
            }
        }
    }
}

/// No two directories of `dirs` are the same path (an earlier one compared
/// with a later one).
pub open spec fn no_repeated_dirs(dirs: Seq<Seq<char>>) -> bool {
    forall|i: int, j: int| 0 <= i < j < dirs.len() ==> !spec_paths_equal(#[trigger] dirs[i], #[trigger] dirs[j])
}

/// Every directory left after a removal was among the directories before.
pub proof fn lemma_dirs_without_from(dirs: Seq<Seq<char>>, d: Seq<char>, i: int)
    requires
        0 <= i < dirs_without(dirs, d).len(),
    ensures
        exists|k: int| 0 <= k < dirs.len() && dirs[k] == dirs_without(dirs, d)[i],
    decreases dirs.len(),
{
    let rest = dirs_without(dirs.drop_last(), d);
    if i < rest.len() {
        lemma_dirs_without_from(dirs.drop_last(), d, i);
        let k = choose|k: int| 0 <= k < dirs.drop_last().len() && dirs.drop_last()[k] == rest[i];
        assert(dirs[k] == dirs_without(dirs, d)[i]);
    } else {
        assert(dirs[dirs.len() - 1] == dirs_without(dirs, d)[i]);
    }
}

/// Adding a directory keeps the directories free of repeated paths.
pub proof fn law_add_dir_keeps_dirs_distinct(c0: Seq<Seq<char>>, d: Seq<char>, changed: bool, c1: Seq<Seq<char>>)
    requires
        no_repeated_dirs(c0),
        dir_added(c0, d, changed, c1),
    ensures
        no_repeated_dirs(c1),
{
    if changed {
        assert forall|i: int, j: int| 0 <= i < j < c1.len() implies !spec_paths_equal(
            #[trigger] c1[i],
            #[trigger] c1[j],
        ) by {
            if j == c0.len() {
                assert(c1[j] == d);
                assert(c1[i] == c0[i]);
            } else {
                assert(c1[i] == c0[i] && c1[j] == c0[j]);
            }
        }
    }
}

/// Removing a directory keeps the directories free of repeated paths, and
/// keeps the order of those left.
pub proof fn law_remove_dir_keeps_dirs_distinct(dirs: Seq<Seq<char>>, d: Seq<char>)
    requires
        no_repeated_dirs(dirs),
    ensures
        no_repeated_dirs(dirs_without(dirs, d)),
    decreases dirs.len(),
{
    if dirs.len() > 0 {
        let r = dirs.drop_last();
        assert(no_repeated_dirs(r)) by {
            assert forall|i: int, j: int| 0 <= i < j < r.len() implies !spec_paths_equal(
                #[trigger] r[i],
                #[trigger] r[j],
            ) by {
                assert(r[i] == dirs[i] && r[j] == dirs[j]);
            }
        }
        law_remove_dir_keeps_dirs_distinct(r, d);
        let rest = dirs_without(r, d);
        if !spec_paths_equal(dirs.last(), d) {
            let u = rest.push(dirs.last());
            assert forall|i: int, j: int| 0 <= i < j < u.len() implies !spec_paths_equal(
                #[trigger] u[i],
                #[trigger] u[j],
            ) by {
                if j == rest.len() {
                    lemma_dirs_without_from(r, d, i);
                    let k = choose|k: int| 0 <= k < r.len() && r[k] == rest[i];
                    assert(u[i] == dirs[k]);
                    assert(u[j] == dirs[dirs.len() - 1]);
                } else {
                    assert(u[i] == rest[i] && u[j] == rest[j]);
                }
            }
        }
    }
}

/// A call that changes the directories: adding or removing one.
pub enum DirChange {
    Add(Seq<char>),
    Remove(Seq<char>),
}

/// The directories after the calls `ops`, from `dirs`: an addition appends a
/// path not there yet, a removal drops every directory that is that path.
pub open spec fn dirs_after(dirs: Seq<Seq<char>>, ops: Seq<DirChange>) -> Seq<Seq<char>>
    decreases ops.len(),
{
    if ops.len() == 0 {
        dirs
    } else {
        let c = dirs_after(dirs, ops.drop_last());
        match ops.last() {
            DirChange::Add(d) => if has_dir(c, d) {
                c
            } else {
                c.push(d)
            },
            DirChange::Remove(d) => dirs_without(c, d),
        }
    }
}

/// `c1` is `c0` after the call `op`, as `add_dir` and `remove_dir` state it.
pub open spec fn dir_changed(c0: Seq<Seq<char>>, op: DirChange, c1: Seq<Seq<char>>) -> bool {
    match op {
        DirChange::Add(d) => dir_added(c0, d, !has_dir(c0, d), c1),
        DirChange::Remove(d) => c1 == dirs_without(c0, d),
    }
}

/// Along any sequence of `add_dir` and `remove_dir` calls from a new
/// configuration, the directories are `dirs_after` of the calls (each kept
/// in the order of its first insertion since it was last removed) and no
/// path appears twice.
pub proof fn law_dir_sequence(ops: Seq<DirChange>, cs: Seq<Seq<Seq<char>>>)
    requires
        cs.len() == ops.len() + 1,
        cs[0] == Seq::<Seq<char>>::empty(),
        forall|i: int| 0 <= i < ops.len() ==> dir_changed(#[trigger] cs[i], ops[i], cs[i + 1]),
    ensures
        cs.last() == dirs_after(Seq::empty(), ops),
        no_repeated_dirs(cs.last()),
    decreases ops.len(),
{
    if ops.len() > 0 {
        let n = ops.len() - 1;
        let ws = cs.drop_last();
        assert forall|i: int| 0 <= i < ops.drop_last().len() implies dir_changed(
            #[trigger] ws[i],
            ops.drop_last()[i],
            ws[i + 1],
        ) by {
            assert(ws[i] == cs[i] && ws[i + 1] == cs[i + 1] && ops.drop_last()[i] == ops[i]);
        }
        law_dir_sequence(ops.drop_last(), ws);
        assert(dir_changed(cs[n], ops[n], cs[n + 1]));
        assert(ws.last() == cs[n]);
        match ops[n] {
            DirChange::Add(d) => {
                law_add_dir_keeps_dirs_distinct(cs[n], d, !has_dir(cs[n], d), cs[n + 1]);
            },
            DirChange::Remove(d) => {
                law_remove_dir_keeps_dirs_distinct(cs[n], d);
            },
        }
    }
}
} // verus!
