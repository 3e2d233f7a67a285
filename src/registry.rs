//! The cache registry: a fixed table of known cache locations, each with a
//! path that may start with `~` for the home directory. The home directory
//! is applied when a path is resolved, never when the table is built, so the
//! table does not depend on the environment.

use crate::engine::{size_floor, TargetConfig};
use crate::text::{chars_of, has_prefix, starts_with, string_views};
use vstd::prelude::*;

verus! {

/// The kind of a cache location.
#[derive(Debug, Clone, Copy, PartialEq, Eq, Structural)]
pub enum CacheCategory {
    SystemCache,
    PackageManagerCache,
    BrowserCache,
    DevToolCache,
    Temp,
}

/// A tool that cleans a cache location by itself.
#[derive(Debug, Clone, Copy, PartialEq, Eq, Structural)]
pub enum CleanTool {
    /// `npm cache clean --force`.
    NpmCacheClean,
    /// Removes regular files not modified for more than seven days.
    RemoveStaleFiles,
}

/// How a cache location is emptied.
#[derive(Debug, Clone, Copy, PartialEq, Eq, Structural)]
pub enum Removal {
    /// Remove the directory tree.
    DeleteTree,
    /// Run the tool, which removes what it considers removable.
    Tool(CleanTool),
}

/// One known cache location.
#[derive(Debug)]
pub struct CacheEntry {
    /// Unique within a registry.
    pub name: String,
    /// Absolute, or starting with `~` for the home directory.
    pub path: String,
    pub category: CacheCategory,
    pub removal: Removal,
    /// Part of the quick cleanup of common safe caches.
    pub quick: bool,
}

pub open spec fn unique_names(es: Seq<CacheEntry>) -> bool {
    forall|i: int, j: int|
        0 <= i < es.len() && 0 <= j < es.len() && i != j ==> #[trigger] es[i].name@
            != #[trigger] es[j].name@
}

/// Two entries with one name were offered.
#[derive(Debug, Clone, Copy, PartialEq, Eq, Structural)]
pub enum RegistryError {
    DuplicateName,
}

/// The registry: entries with unique names, in a fixed order.
pub struct CacheRegistry {
    entries: Vec<CacheEntry>,
}

impl CacheRegistry {
    pub closed spec fn view_entries(&self) -> Seq<CacheEntry> {
        self.entries@
    }

    pub closed spec fn wf(&self) -> bool {
        unique_names(self.entries@)
    }

    /// A registry of `entries`, refused when two share a name.
    pub fn new(entries: Vec<CacheEntry>) -> (r: Result<CacheRegistry, RegistryError>)
        ensures
            match r {
                Ok(reg) => reg.wf() && reg.view_entries() == entries@ && unique_names(entries@),
                Err(e) => e == RegistryError::DuplicateName && !unique_names(entries@),
            },
    {
        let n = entries.len();
        let mut i: usize = 0;
        while i < n
            invariant
                n == entries.len(),
                i <= n,
                forall|a: int, b: int|
                    0 <= a < i && 0 <= b < n && a != b ==> #[trigger] entries@[a].name@
                        != #[trigger] entries@[b].name@,
            decreases n - i,
        {
            let mut j: usize = 0;
            while j < n
                invariant
                    n == entries.len(),
                    i < n,
                    j <= n,
                    forall|a: int, b: int|
                        0 <= a < i && 0 <= b < n && a != b ==> #[trigger] entries@[a].name@
                            != #[trigger] entries@[b].name@,
                    forall|b: int|
                        0 <= b < j && b != i ==> entries@[i as int].name@ != #[trigger] entries@[b].name@,
                decreases n - j,
            {
                if j != i && entries[i].name == entries[j].name {
                    return Err(RegistryError::DuplicateName);
                }
                j = j + 1;
            }
            i = i + 1;
        }
        Ok(CacheRegistry { entries })
    }

    /// All entries, in table order.
    pub fn list_all(&self) -> (r: &Vec<CacheEntry>)
        ensures
            r@ == self.view_entries(),
    {
        &self.entries
    }

    /// The entry called `name`, if there is one.
    pub fn find_by_name(&self, name: &str) -> (r: Option<&CacheEntry>)
        requires
            self.wf(),
        ensures
            match r {
                Some(e) => exists|i: int|
                    0 <= i < self.view_entries().len() && self.view_entries()[i] == *e
                        && e.name@ == name@,
                None => forall|i: int|
                    0 <= i < self.view_entries().len() ==> #[trigger] self.view_entries()[i].name@
                        != name@,
            },
    {
        let key = name.to_owned();
        let mut i: usize = 0;
        while i < self.entries.len()
            invariant
                key@ == name@,
                i <= self.entries.len(),
                forall|k: int| 0 <= k < i ==> #[trigger] self.entries@[k].name@ != name@,
            decreases self.entries.len() - i,
        {
            if self.entries[i].name == key {
                return Some(&self.entries[i]);
            }
            i = i + 1;
        }
        None
    }
}

/// `path` with a leading `~` (alone, or before `/`) replaced by `home`.
pub open spec fn expand_tilde(path: Seq<char>, home: Seq<char>) -> Seq<char> {
    if path.len() > 0 && path[0] == '~' && (path.len() == 1 || path[1] == '/') {
        home + path.drop_first()
    } else {
        path
    }
}

/// Relies on shellexpand::tilde_with_context (on a Unix-like system): a `~`
/// alone or before `/` at the start becomes the home directory that the
/// closure gives; any other path, `~user/...` included, comes back unchanged.
#[verifier::external_body]
fn expand_home(path: &str, home: &str) -> (r: String)
    ensures
        r@ == expand_tilde(path@, home@),
{
    shellexpand::tilde_with_context(path, || Some(home)).into_owned()
}

/// The absolute path of `entry` for the home directory `home`.
pub fn resolve_path(entry: &CacheEntry, home: &str) -> (r: String)
    ensures
        r@ == expand_tilde(entry.path@, home@),
{
    expand_home(entry.path.as_str(), home)
}

fn entry(name: &str, path: &str, category: CacheCategory, removal: Removal, quick: bool) -> (r:
    CacheEntry)
    ensures
        r.name@ == name@,
        r.path@ == path@,
        r.category == category,
        r.removal == removal,
        r.quick == quick,
{
    CacheEntry { name: name.to_owned(), path: path.to_owned(), category, removal, quick }
}

/// What a registry entry holds, as plain values.
pub open spec fn entry_view(e: CacheEntry) -> (Seq<char>, Seq<char>, CacheCategory, Removal, bool) {
    (e.name@, e.path@, e.category, e.removal, e.quick)
}

/// The built-in cache locations: name, path, category, removal, and
/// whether the quick cleanup covers it.
pub open spec fn builtin_table() -> Seq<(Seq<char>, Seq<char>, CacheCategory, Removal, bool)> {
    let system = CacheCategory::SystemCache;
    let browser = CacheCategory::BrowserCache;
    let dev = CacheCategory::DevToolCache;
    let tree = Removal::DeleteTree;
    let stale = Removal::Tool(CleanTool::RemoveStaleFiles);
    seq![
        ("homebrew"@, "~/Library/Caches/Homebrew"@, system, tree, true),
        ("pip"@, "~/Library/Caches/pip"@, system, tree, true),
        (
            "npm"@,
            "~/.npm"@,
            CacheCategory::PackageManagerCache,
            Removal::Tool(CleanTool::NpmCacheClean),
            true,
        ),
        ("composer"@, "~/Library/Caches/composer"@, system, tree, true),
        ("node-gyp"@, "~/Library/Caches/node-gyp"@, system, tree, true),
        ("playwright"@, "~/Library/Caches/ms-playwright"@, system, tree, false),
        ("chrome"@, "~/Library/Caches/Google/Chrome"@, browser, tree, false),
        ("safari"@, "~/Library/Caches/com.apple.Safari"@, browser, tree, false),
        ("firefox"@, "~/Library/Caches/Firefox"@, browser, tree, false),
        ("tmp"@, "/tmp"@, CacheCategory::Temp, stale, false),
        ("var-tmp"@, "/var/tmp"@, CacheCategory::Temp, stale, false),
        ("gradle"@, "~/.gradle/caches"@, dev, tree, false),
        ("maven"@, "~/.m2/repository"@, dev, tree, false),
        ("cargo"@, "~/.cargo/registry"@, dev, tree, false),
        ("go"@, "~/go/pkg/mod"@, dev, tree, false),
        ("android"@, "~/.android/build-cache"@, dev, tree, false),
    ]
}

/// The built-in table of cache locations.
pub fn builtin_entries() -> (r: Vec<CacheEntry>)
    ensures
        r@.map_values(|e: CacheEntry| entry_view(e)) == builtin_table(),
{
    let system = CacheCategory::SystemCache;
    let browser = CacheCategory::BrowserCache;
    let dev = CacheCategory::DevToolCache;
    let tree = Removal::DeleteTree;
    let stale = Removal::Tool(CleanTool::RemoveStaleFiles);
    let mut r: Vec<CacheEntry> = Vec::new();
    r.push(entry("homebrew", "~/Library/Caches/Homebrew", system, tree, true));
    r.push(entry("pip", "~/Library/Caches/pip", system, tree, true));
    r.push(
        entry(
            "npm",
            "~/.npm",
            CacheCategory::PackageManagerCache,
            Removal::Tool(CleanTool::NpmCacheClean),
            true,
        ),
    );
    r.push(entry("composer", "~/Library/Caches/composer", system, tree, true));
    r.push(entry("node-gyp", "~/Library/Caches/node-gyp", system, tree, true));
    r.push(entry("playwright", "~/Library/Caches/ms-playwright", system, tree, false));
    r.push(entry("chrome", "~/Library/Caches/Google/Chrome", browser, tree, false));
    r.push(entry("safari", "~/Library/Caches/com.apple.Safari", browser, tree, false));
    r.push(entry("firefox", "~/Library/Caches/Firefox", browser, tree, false));
    r.push(entry("tmp", "/tmp", CacheCategory::Temp, stale, false));
    r.push(entry("var-tmp", "/var/tmp", CacheCategory::Temp, stale, false));
    r.push(entry("gradle", "~/.gradle/caches", dev, tree, false));
    r.push(entry("maven", "~/.m2/repository", dev, tree, false));
    r.push(entry("cargo", "~/.cargo/registry", dev, tree, false));
    r.push(entry("go", "~/go/pkg/mod", dev, tree, false));
    r.push(entry("android", "~/.android/build-cache", dev, tree, false));
    assert(r@.map_values(|e: CacheEntry| entry_view(e)) =~= builtin_table());
    r
}

/// How the engine handles `entry`.
pub fn target_config(entry: &CacheEntry, dry_run: bool, authorized: bool) -> (r: TargetConfig)
    ensures
        r == (TargetConfig {
            category: entry.category,
            removal: entry.removal,
            dry_run,
            authorized,
            floor: size_floor(entry.category),
        }),
{
    let floor: u64 = match entry.category {
        CacheCategory::DevToolCache => 1048576,
        _ => 0,
    };
    TargetConfig { category: entry.category, removal: entry.removal, dry_run, authorized, floor }
}

/// The category of a breakdown label: the subdirectories of the nested root
/// (`Caches/...`) are system caches; every other scanned directory is a
/// developer-tool cache.
pub open spec fn label_category(label: Seq<char>) -> CacheCategory {
    if has_prefix(label, "Caches/"@) {
        CacheCategory::SystemCache
    } else {
        CacheCategory::DevToolCache
    }
}

/// How the engine handles a directory picked from the breakdown. The pick
/// itself was confirmed, so no further confirmation is asked, and only an
/// empty directory is skipped.
pub fn label_config(label: &str, dry_run: bool) -> (r: TargetConfig)
    ensures
        r == (TargetConfig {
            category: label_category(label@),
            removal: Removal::DeleteTree,
            dry_run,
            authorized: true,
            floor: 0,
        }),
{
    let category = if starts_with(&chars_of(label), "Caches/") {
        CacheCategory::SystemCache
    } else {
        CacheCategory::DevToolCache
    };
    TargetConfig { category, removal: Removal::DeleteTree, dry_run, authorized: true, floor: 0 }
}

/// The command line that runs a cleaning tool on the directory `path`.
pub open spec fn tool_args(tool: CleanTool, path: Seq<char>) -> Seq<Seq<char>> {
    match tool {
        CleanTool::NpmCacheClean => seq!["npm"@, "cache"@, "clean"@, "--force"@],
        CleanTool::RemoveStaleFiles => seq![
            "find"@,
            path,
            "-type"@,
            "f"@,
            "-mtime"@,
            "+7"@,
            "-exec"@,
            "rm"@,
            "{}"@,
            "+"@,
        ],
    }
}

fn push_word(v: &mut Vec<String>, a: &str)
    ensures
        string_views(final(v)@) == string_views(old(v)@).push(a@),
{
    v.push(a.to_owned());
    assert(string_views(final(v)@) =~= string_views(old(v)@).push(a@));
}

/// The program and arguments that run `tool` on the directory `path`.
pub fn tool_command(tool: CleanTool, path: &str) -> (r: Vec<String>)
    ensures
        string_views(r@) == tool_args(tool, path@),
{
    let mut v: Vec<String> = Vec::new();
    assert(string_views(v@) =~= Seq::<Seq<char>>::empty());
    match tool {
        CleanTool::NpmCacheClean => {
            push_word(&mut v, "npm");
            push_word(&mut v, "cache");
            push_word(&mut v, "clean");
            push_word(&mut v, "--force");
        },
        CleanTool::RemoveStaleFiles => {
            push_word(&mut v, "find");
            push_word(&mut v, path);
            push_word(&mut v, "-type");
            push_word(&mut v, "f");
            push_word(&mut v, "-mtime");
            push_word(&mut v, "+7");
            push_word(&mut v, "-exec");
            push_word(&mut v, "rm");
            push_word(&mut v, "{}");
            push_word(&mut v, "+");
        },
    }
    assert(string_views(v@) =~= tool_args(tool, path@));
    v
}

/// Which entries a batch covers.
#[derive(Debug, Clone, Copy, PartialEq, Eq, Structural)]
pub enum BatchScope {
    /// The common caches that are safe to clean at any time.
    Quick,
    /// Every cache but the developer-tool caches.
    AllCaches,
    /// The developer-tool caches.
    DevelopmentCaches,
}

pub open spec fn in_scope(scope: BatchScope, e: CacheEntry) -> bool {
    match scope {
        BatchScope::Quick => e.quick,
        BatchScope::AllCaches => e.category != CacheCategory::DevToolCache,
        BatchScope::DevelopmentCaches => e.category == CacheCategory::DevToolCache,
    }
}

impl CacheRegistry {
    /// The indices of the entries in `scope`, in table order.
    pub fn batch_indices(&self, scope: BatchScope) -> (r: Vec<usize>)
        ensures
            forall|k: int| 0 <= k < r@.len() ==> #[trigger] r@[k] < self.view_entries().len(),
            forall|k: int|
                0 <= k < r@.len() ==> in_scope(scope, #[trigger] self.view_entries()[r@[k] as int]),
            forall|k: int, l: int| 0 <= k < l < r@.len() ==> #[trigger] r@[k] < #[trigger] r@[l],
            forall|i: int|
                0 <= i < self.view_entries().len() && in_scope(scope, #[trigger] self.view_entries()[i])
                    ==> r@.contains(i as usize),
    {
        let mut r: Vec<usize> = Vec::new();
        let mut i: usize = 0;
        while i < self.entries.len()
            invariant
                i <= self.entries.len(),
                forall|k: int| 0 <= k < r@.len() ==> #[trigger] r@[k] < i,
                forall|k: int|
                    0 <= k < r@.len() ==> in_scope(scope, #[trigger] self.entries@[r@[k] as int]),
                forall|k: int, l: int| 0 <= k < l < r@.len() ==> #[trigger] r@[k] < #[trigger] r@[l],
                forall|j: int|
                    0 <= j < i && in_scope(scope, #[trigger] self.entries@[j]) ==> r@.contains(
                        j as usize,
                    ),
            decreases self.entries.len() - i,
        {
            let e = &self.entries[i];
            let take = match scope {
                BatchScope::Quick => e.quick,
                BatchScope::AllCaches => e.category != CacheCategory::DevToolCache,
                BatchScope::DevelopmentCaches => e.category == CacheCategory::DevToolCache,
            };
            if take {
                let ghost before = r@;
                r.push(i);
                assert forall|j: int|
                    0 <= j < i && in_scope(scope, #[trigger] self.entries@[j]) implies r@.contains(
                    j as usize,
                ) by {
                    let k = choose|k: int| 0 <= k < before.len() && before[k] == j as usize;
                    assert(r@[k] == j as usize);
                }
                assert(r@[r@.len() - 1] == i);
            }
            i = i + 1;
        }
        r
    }
}

} // verus!
