use crate::text::{
    chars_of, ends_with, extend_chars, has_suffix, split_chars, split_on, string_of, views,
};
use vstd::prelude::*;

verus! {

/// Where descriptor files are looked for: the colon-separated list of data
/// directories, as given once at startup.
pub struct LauncherConfig {
    pub data_dirs: String,
}

/// Why the launcher cannot be configured.
#[derive(Debug, PartialEq, Eq, Structural)]
pub enum ConfigError {
    /// The list of data directories was not given.
    MissingDataDirs,
}

/// The directory that holds a data directory's descriptors: `applications`
/// joined to it as a path component.
pub open spec fn applications_dir(base: Seq<char>) -> Seq<char> {
    if base.len() == 0 {
        "applications"@
    } else if base.last() == '/' {
        base + "applications"@
    } else {
        base + "/applications"@
    }
}

/// A path names a descriptor file: it ends in `.desktop`.
pub open spec fn is_descriptor_path(p: Seq<char>) -> bool {
    ends_with(p, ".desktop"@)
}

/// The descriptor paths among `paths`, in order.
pub open spec fn descriptors_in(paths: Seq<Seq<char>>) -> Seq<Seq<char>>
    decreases paths.len(),
{
    if paths.len() == 0 {
        Seq::empty()
    } else {
        let before = descriptors_in(paths.drop_last());
        if is_descriptor_path(paths.last()) {
            before.push(paths.last())
        } else {
            before
        }
    }
}

/// The descriptor paths of all listings, in order; a directory that could
/// not be listed (`None`) contributes nothing. Duplicates are kept.
pub open spec fn located(listings: Seq<Option<Seq<Seq<char>>>>) -> Seq<Seq<char>>
    decreases listings.len(),
{
    if listings.len() == 0 {
        Seq::empty()
    } else {
        let before = located(listings.drop_last());
        match listings.last() {
            Some(paths) => before + descriptors_in(paths),
            None => before,
        }
    }
}

proof fn lemma_located_concat(a: Seq<Option<Seq<Seq<char>>>>, b: Seq<Option<Seq<Seq<char>>>>)
    ensures
        located(a + b) == located(a) + located(b),
    decreases b.len(),
{
    if b.len() == 0 {
        assert(a + b =~= a);
        assert(located(a) + located(b) =~= located(a));
    } else {
        assert((a + b).drop_last() =~= a + b.drop_last());
        assert((a + b).last() == b.last());
        lemma_located_concat(a, b.drop_last());
        match b.last() {
            Some(paths) => {
                assert(located(a) + located(b.drop_last()) + descriptors_in(paths) =~= located(a)
                    + (located(b.drop_last()) + descriptors_in(paths)));
            },
            None => {},
        }
    }
}

/// A search directory that is missing or cannot be listed does not disturb
/// discovery: inserting it anywhere among the listings adds no path and
/// removes none.
pub proof fn lemma_missing_dir_contributes_nothing(
    listings: Seq<Option<Seq<Seq<char>>>>,
    k: int,
)
    requires
        0 <= k <= listings.len(),
    ensures
        located(listings.insert(k, None)) == located(listings),
{
    let front = listings.take(k);
    let back = listings.skip(k);
    let missing = seq![None::<Seq<Seq<char>>>];
    assert(listings.insert(k, None) =~= front + missing + back);
    assert(listings =~= front + back);
    assert(missing.drop_last() =~= Seq::<Option<Seq<Seq<char>>>>::empty());
    assert(missing.last() is None);
    assert(located(missing.drop_last()) =~= Seq::<Seq<char>>::empty());
    assert(located(missing) =~= Seq::<Seq<char>>::empty());
    lemma_located_concat(front + missing, back);
    lemma_located_concat(front, missing);
    lemma_located_concat(front, back);
    assert(located(front) + Seq::<Seq<char>>::empty() =~= located(front));
}

impl LauncherConfig {
    /// The configuration from the value of the data-directories setting;
    /// an absent value is an error.
    pub fn from_env_value(value: Option<String>) -> (r: Result<LauncherConfig, ConfigError>)
        ensures
            match value {
                Some(v) => r is Ok && r->Ok_0.data_dirs@ == v@,
                None => r == Err::<LauncherConfig, ConfigError>(ConfigError::MissingDataDirs),
            },
    {
        match value {
            Some(v) => Ok(LauncherConfig { data_dirs: v }),
            None => Err(ConfigError::MissingDataDirs),
        }
    }

    /// The directories to search: `applications` under each listed data
    /// directory, in the order listed.
    pub fn search_dirs(&self) -> (r: Vec<String>)
        ensures
            r@.len() == split_on(self.data_dirs@, ':').len(),
            forall|i: int|
                0 <= i < r@.len() ==> #[trigger] r@[i]@ == applications_dir(
                    split_on(self.data_dirs@, ':')[i],
                ),
    {
        let chars = chars_of(self.data_dirs.as_str());
        let bases = split_chars(&chars, ':');
        let ghost parts = split_on(self.data_dirs@, ':');
        let leaf = chars_of("applications");
        let mut dirs: Vec<String> = Vec::new();
        let mut i: usize = 0;
        while i < bases.len()
            invariant
                i <= bases.len(),
                views(bases@) == parts,
                leaf@ == "applications"@,
                dirs@.len() == i,
                forall|j: int| 0 <= j < i ==> #[trigger] dirs@[j]@ == applications_dir(parts[j]),
            decreases bases.len() - i,
        {
            let base = &bases[i];
            assert(parts[i as int] == base@);
            let mut path: Vec<char> = Vec::new();
            extend_chars(&mut path, base);
            if base.len() > 0 && base[base.len() - 1] != '/' {
                path.push('/');
            }
            extend_chars(&mut path, &leaf);
            proof {
                reveal_strlit("/applications");
                reveal_strlit("applications");
                assert(base@.len() == 0 ==> path@ =~= "applications"@);
                assert(base@.len() > 0 && base@.last() == '/' ==> path@ =~= base@ + "applications"@);
                assert(base@.len() > 0 && base@.last() != '/' ==> path@ =~= base@ + "/applications"@);
            }
            dirs.push(string_of(&path));
            i = i + 1;
        }
        dirs
    }
}

/// Gathers the descriptor paths from the listings of the search directories,
/// in order; `None` stands for a directory that is missing or unreadable.
pub fn descriptor_paths(listings: &Vec<Option<Vec<String>>>) -> (r: Vec<String>)
    ensures
        r.deep_view() == located(listings.deep_view()),
{
    let ghost all = listings.deep_view();
    let suffix = chars_of(".desktop");
    let mut found: Vec<String> = Vec::new();
    let mut i: usize = 0;
    while i < listings.len()
        invariant
            i <= listings.len(),
            all == listings.deep_view(),
            suffix@ == ".desktop"@,
            found.deep_view() == located(all.take(i as int)),
        decreases listings.len() - i,
    {
        assert(all.take(i + 1).drop_last() =~= all.take(i as int));
        match &listings[i] {
            Some(paths) => {
                let ghost pv = paths.deep_view();
                let ghost start = found.deep_view();
                let mut k: usize = 0;
                while k < paths.len()
                    invariant
                        k <= paths.len(),
                        pv == paths.deep_view(),
                        suffix@ == ".desktop"@,
                        found.deep_view() == start + descriptors_in(pv.take(k as int)),
                    decreases paths.len() - k,
                {
                    assert(pv.take(k + 1).drop_last() =~= pv.take(k as int));
                    let ghost before = found.deep_view();
                    let p = &paths[k];
                    if has_suffix(&chars_of(p.as_str()), &suffix) {
                        found.push(p.clone());
                        assert(found.deep_view() =~= before.push(pv[k as int]));
                    }
                    k = k + 1;
                }
                assert(pv.take(k as int) =~= pv);
            },
            None => {},
        }
        i = i + 1;
    }
    assert(all.take(i as int) =~= all);
    found
}

} // verus!
