//! Games on disk, and the rules that tell their launchers apart.

use vstd::prelude::*;
use crate::path::{
    chars_of, extension_of, extension_start, file_name, file_name_of, final_component,
    has_same_name_as_parent_dir, has_run, contains_run, parent_name_of, run_equals,
};

verus! {

/// A platform that a [`Game`] can be developed for.
#[derive(Debug, Clone, Copy, PartialEq, Eq, Structural, PartialOrd, Ord, Hash)]
pub enum Platform {
    /// Runs directly on Linux.
    Native,
    /// A Windows program that runs through the Wine compatibility layer.
    Wine,
}

/// A genre that a [`Game`] can belong to.
#[derive(Debug, Clone, Copy, PartialEq, Eq, Structural, PartialOrd, Ord, Hash)]
pub enum Genre {
    Action,
    Platformer,
}

/// A game on your hard drive.
#[derive(Debug, Clone, PartialEq, Eq, PartialOrd, Ord)]
pub struct Game {
    /// Name of the game. Can be inferred from the directory.
    pub name: Option<String>,
    /// Platform the game runs on: native (Linux), Wine, etc.
    pub platform: Option<Platform>,
    /// Where the game is located:
    /// the root directory that contains game files and launchers.
    pub directory: String,
    /// Currently unused, but may be useful for filtering.
    pub genres: Vec<Genre>,
    /// Paths to executable files that start the game.
    pub launchers: Vec<String>,
}

/// The text of each path in `v`.
pub open spec fn paths_view(v: Seq<String>) -> Seq<Seq<char>> {
    v.map_values(|s: String| s@)
}

/// The text of each extension in `v`.
pub open spec fn extensions_view(v: Seq<&str>) -> Seq<Seq<char>> {
    v.map_values(|s: &str| s@)
}

/// Whether the path `p` has an extension, and it is one of `exts`.
pub open spec fn has_extension_in(p: Seq<char>, exts: Seq<Seq<char>>) -> bool {
    match extension_of(p) {
        Some(e) => exts.contains(e),
        None => false,
    }
}

/// Extensions of programs that run natively.
pub open spec fn native_extensions() -> Seq<Seq<char>> {
    seq!["sh"@, "x86"@, "x86_64"@]
}

/// Extensions of Windows programs.
pub open spec fn wine_extensions() -> Seq<Seq<char>> {
    seq!["exe"@]
}

/// The platform that the file `p` is made for, judged by its extension.
pub open spec fn platform_of(p: Seq<char>) -> Option<Platform> {
    if has_extension_in(p, native_extensions()) {
        Some(Platform::Native)
    } else if has_extension_in(p, wine_extensions()) {
        Some(Platform::Wine)
    } else {
        None
    }
}

/// Whether the name of the file `p` marks it as an uninstaller.
pub open spec fn uninstaller(p: Seq<char>) -> bool {
    match file_name_of(p) {
        Some(n) => contains_run(n, "uninstall"@),
        None => false,
    }
}

/// Whether the file `p` is named as the directory that holds it.
pub open spec fn named_as_parent(p: Seq<char>) -> bool {
    file_name_of(p) is Some && file_name_of(p) == parent_name_of(p)
}

/// Whether the file `p` starts a game.
pub open spec fn launcher(p: Seq<char>) -> bool {
    !uninstaller(p) && (platform_of(p) is Some || named_as_parent(p))
}

/// The launchers among `entries`, in their order.
pub open spec fn launchers_of(entries: Seq<Seq<char>>) -> Seq<Seq<char>> {
    entries.filter(|p: Seq<char>| launcher(p))
}

/// The platform that every one of `ls` is made for, as the first one tells.
pub open spec fn same_platform_of(ls: Seq<Seq<char>>) -> Option<Platform> {
    if ls.len() == 0 {
        None
    } else {
        match platform_of(ls[0]) {
            Some(p) => if forall|i: int| 0 <= i < ls.len() ==> platform_of(#[trigger] ls[i]) == Some(p) {
                Some(p)
            } else {
                None
            },
            None => None,
        }
    }
}

impl Game {
    /// A game whose platform is known has launchers, and all of them are
    /// made for that platform.
    pub open spec fn wf(&self) -> bool {
        self.platform matches Some(p) ==> {
            &&& self.launchers@.len() > 0
            &&& forall|i: int|
                0 <= i < self.launchers@.len() ==> platform_of(#[trigger] self.launchers@[i]@)
                    == Some(p)
        }
    }

    /// Constructs a [`Game`] from its directory and the entries found
    /// directly inside it.
    ///
    /// Most of the metadata about the game is inferred.
    /// Currently there is no way to customize the inferred data.
    pub fn from_path(directory: String, entries: Vec<String>) -> (r: Self)
        ensures
            r.name matches Some(n) ==> file_name_of(directory@) == Some(n@),
            r.name is None ==> file_name_of(directory@) is None,
            r.directory@ == directory@,
            r.genres@.len() == 0,
            paths_view(r.launchers@) == launchers_of(paths_view(entries@)),
            r.platform == same_platform_of(paths_view(r.launchers@)),
            r.wf(),
    {
        let (platform, launchers) = Self::find_launchers(&entries);
        proof {
            lemma_same_platform_agrees(paths_view(launchers@));
            if let Some(p) = platform {
                assert forall|i: int| 0 <= i < launchers@.len() implies platform_of(
                    #[trigger] launchers@[i]@,
                ) == Some(p) by {
                    assert(paths_view(launchers@)[i] == launchers@[i]@);
                }
            }
        }
        Game {
            // Name of the game is the name of its directory.
            name: Self::basename(directory.as_str()),
            // Genres is beyond us for now.
            genres: Vec::new(),
            platform,
            launchers,
            directory,
        }
    }

    /// The launchers among `entries`, and the platform they all agree on.
    pub fn find_launchers(entries: &Vec<String>) -> (r: (Option<Platform>, Vec<String>))
        ensures
            paths_view(r.1@) == launchers_of(paths_view(entries@)),
            r.0 == same_platform_of(paths_view(r.1@)),
    {
        let mut launchers: Vec<String> = Vec::new();
        let mut i: usize = 0;
        while i < entries.len()
            invariant
                i <= entries@.len(),
                paths_view(launchers@) == launchers_of(paths_view(entries@.subrange(0, i as int))),
            decreases entries.len() - i,
        {
            proof {
                let before = paths_view(entries@.subrange(0, i as int));
                assert(paths_view(entries@.subrange(0, i + 1)) =~= before.push(entries@[i as int]@));
                before.lemma_filter_push(entries@[i as int]@, |p: Seq<char>| launcher(p));
            }
            if Self::is_launcher(entries[i].as_str()) {
                launchers.push(entries[i].clone());
                assert(paths_view(launchers@) =~= launchers_of(
                    paths_view(entries@.subrange(0, i as int)),
                ).push(entries@[i as int]@));
            }
            i = i + 1;
        }
        assert(entries@.subrange(0, entries@.len() as int) =~= entries@);
        let platform = Self::same_platform(launchers.as_slice());
        (platform, launchers)
    }

    /// The platform that all launchers are made for, as the first one tells;
    /// `None` where there are none, or where any one disagrees.
    pub fn same_platform(launchers: &[String]) -> (r: Option<Platform>)
        ensures
            r == same_platform_of(paths_view(launchers@)),
    {
        let ghost ls = paths_view(launchers@);
        if launchers.len() == 0 {
            return None;
        }
        let first = match Self::platform(launchers[0].as_str()) {
            Some(p) => p,
            None => return None,
        };
        let mut i: usize = 0;
        while i < launchers.len()
            invariant
                ls == paths_view(launchers@),
                ls.len() > 0,
                platform_of(ls[0]) == Some(first),
                i <= ls.len(),
                forall|k: int| 0 <= k < i ==> platform_of(#[trigger] ls[k]) == Some(first),
            decreases launchers.len() - i,
        {
            let agrees = match Self::platform(launchers[i].as_str()) {
                Some(p) => p == first,
                None => false,
            };
            if !agrees {
                assert(platform_of(ls[i as int]) != Some(first));
                return None;
            }
            i = i + 1;
        }
        Some(first)
    }

    /// How the game is shown: its name, or a fixed text where it has none.
    pub fn display_name(&self) -> (r: String)
        ensures
            r@ == (match self.name {
                Some(n) => n@,
                None => "a game with no name"@,
            }),
    {
        match &self.name {
            Some(n) => n.clone(),
            None => "a game with no name".to_owned(),
        }
    }

    /// Checks if file has one of the extensions.
    pub fn extension_in(file: &str, extensions: &[&str]) -> (r: bool)
        ensures
            r == has_extension_in(file@, extensions_view(extensions@)),
    {
        let cs = chars_of(file);
        assert(cs@.subrange(0, cs@.len() as int) =~= file@);
        let (s, e) = match final_component(&cs, cs.len()) {
            Some(range) => range,
            None => return false,
        };
        let x = match extension_start(&cs, s, e) {
            Some(x) => x,
            None => return false,
        };
        let ghost ext = file@.subrange(x as int, e as int);
        assert(extension_of(file@) == Some(ext));
        let mut i: usize = 0;
        while i < extensions.len()
            invariant
                x <= e <= cs@.len(),
                cs@ == file@,
                ext == cs@.subrange(x as int, e as int),
                extension_of(file@) == Some(ext),
                i <= extensions@.len(),
                forall|k: int| 0 <= k < i ==> (#[trigger] extensions@[k])@ != ext,
            decreases extensions.len() - i,
        {
            let cand = chars_of(extensions[i]);
            if run_equals(&cs, x, e, &cand) {
                assert(extensions_view(extensions@)[i as int] == ext);
                assert(extensions_view(extensions@).contains(ext));
                return true;
            }
            i = i + 1;
        }
        assert(!extensions_view(extensions@).contains(ext)) by {
            if extensions_view(extensions@).contains(ext) {
                let k = choose|k: int|
                    0 <= k < extensions_view(extensions@).len() && extensions_view(extensions@)[k]
                        == ext;
                assert(extensions@[k]@ == ext);
            }
        }
        false
    }

    /// Checks if file is a native Linux executable (empirically).
    pub fn is_native(file: &str) -> (r: bool)
        ensures
            r == has_extension_in(file@, native_extensions()),
    {
        let mut exts: Vec<&str> = Vec::new();
        exts.push("sh");
        exts.push("x86");
        exts.push("x86_64");
        assert(extensions_view(exts@) =~= native_extensions());
        Self::extension_in(file, exts.as_slice())
    }

    /// Checks if file is a Wine executable (empirically).
    pub fn is_wine(file: &str) -> (r: bool)
        ensures
            r == has_extension_in(file@, wine_extensions()),
    {
        let mut exts: Vec<&str> = Vec::new();
        exts.push("exe");
        assert(extensions_view(exts@) =~= wine_extensions());
        Self::extension_in(file, exts.as_slice())
    }

    /// The platform that a file is made for, judged by its extension.
    pub fn platform(file: &str) -> (r: Option<Platform>)
        ensures
            r == platform_of(file@),
    {
        if Self::is_native(file) {
            Some(Platform::Native)
        } else if Self::is_wine(file) {
            Some(Platform::Wine)
        } else {
            None
        }
    }

    /// Checks if file is an uninstaller.
    pub fn is_uninstall(file: &str) -> (r: bool)
        ensures
            r == uninstaller(file@),
    {
        match file_name(file) {
            Some(n) => {
                let hay = chars_of(n.as_str());
                let needle = chars_of("uninstall");
                has_run(hay.as_slice(), needle.as_slice())
            },
            None => false,
        }
    }

    /// Checks if file starts the game.
    pub fn is_launcher(filepath: &str) -> (r: bool)
        ensures
            r == launcher(filepath@),
    {
        !Self::is_uninstall(filepath) && (Self::is_native(filepath) || Self::is_wine(filepath)
            || has_same_name_as_parent_dir(filepath))
    }

    /// Gets the basename out of a path.
    pub fn basename(path: &str) -> (r: Option<String>)
        ensures
            r matches Some(n) ==> file_name_of(path@) == Some(n@),
            r is None ==> file_name_of(path@) is None,
    {
        file_name(path)
    }
}

/// Wherever the launchers agree on a platform, there is at least one of
/// them and every one of them is made for that platform.
pub proof fn lemma_same_platform_agrees(ls: Seq<Seq<char>>)
    ensures
        same_platform_of(ls) matches Some(p) ==> {
            &&& ls.len() > 0
            &&& forall|i: int| 0 <= i < ls.len() ==> platform_of(#[trigger] ls[i]) == Some(p)
        },
{
}

/// The launchers are entries of the directory, each one a launcher, and
/// every entry that is a launcher is among them.
pub proof fn lemma_launchers_are_entries(entries: Seq<Seq<char>>)
    ensures
        forall|i: int|
            0 <= i < launchers_of(entries).len() ==> entries.contains(
                #[trigger] launchers_of(entries)[i],
            ) && launcher(launchers_of(entries)[i]),
        forall|i: int|
            0 <= i < entries.len() && launcher(entries[i]) ==> launchers_of(entries).contains(
                #[trigger] entries[i],
            ),
{
    let f = |p: Seq<char>| launcher(p);
    assert forall|i: int| 0 <= i < launchers_of(entries).len() implies entries.contains(
        #[trigger] launchers_of(entries)[i],
    ) && launcher(launchers_of(entries)[i]) by {
        entries.lemma_filter_pred(f, i);
        entries.lemma_filter_contains_rev(f, launchers_of(entries)[i]);
    }
    assert forall|i: int| 0 <= i < entries.len() && launcher(entries[i]) implies launchers_of(
        entries,
    ).contains(#[trigger] entries[i]) by {
        entries.lemma_filter_contains(f, i);
    }
}

} // verus!
