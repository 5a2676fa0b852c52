//! The tracked components: where each is found under a system root, and how its
//! version is read from the path found there.

use crate::error::{result_view, ErrorKind, Failure, FailureView};
use crate::halt::{or_halt, Halt, HaltView};
use crate::readings::{DirReading, DirReadingView, LinkReading, LinkReadingView, Readings, ReadingsView};
use crate::text::{
    count, join, join_chars, lemma_join_split, lemma_split_around_sep, lemma_split_len,
    lemma_split_without_sep, split, split_chars, to_chars, to_string, views,
};
use vstd::prelude::*;
use vstd::string::StringExecFns;

verus! {

/// A tracked component of a system.
#[derive(Clone, Copy, Debug, PartialEq, Eq, Structural)]
pub enum ModuleType {
    LinuxKernel,
    Systemd,
}

/// The finding that a link's target does not reach into a store directory.
pub open spec fn no_module_dir() -> Seq<char> {
    "Cannot find the module's directory in /nix/store"@
}

/// The finding that a directory has no entry.
pub open spec fn no_entry() -> Seq<char> {
    "Expected one directory"@
}

/// The finding that a path does not reach down to a kernel version.
pub open spec fn no_linux_version() -> Seq<char> {
    "Could not determine Linux kernel version from path"@
}

/// The finding that a path does not hold a Systemd version.
pub open spec fn no_systemd_version() -> Seq<char> {
    "Could not determine Systemd version from path"@
}

/// The directory of a store path that holds the kernel's modules, by version.
pub open spec fn spec_modules_path(store_path: Seq<char>) -> Seq<char> {
    store_path + "/lib/modules"@
}

/// The store directory that `target` lies in: a slash and the second to fourth
/// of the parts of `target` between slashes, the part before the first slash
/// being the first. A target of fewer than four parts has none.
pub open spec fn spec_module_dir(target: Seq<char>) -> Result<Seq<char>, FailureView> {
    let parts = split(target, '/');
    if parts.len() < 4 {
        Err(
            FailureView {
                kind: ErrorKind::PathResolutionError,
                path: target,
                detail: no_module_dir(),
            },
        )
    } else {
        Ok(seq!['/'] + join(parts.subrange(1, 4), '/'))
    }
}

/// The kernel version that the path of an entry holds: the seventh of its parts
/// between slashes. A path of fewer than seven parts holds none.
pub open spec fn spec_version_in_entry(entry: Seq<char>) -> Result<Seq<char>, FailureView> {
    let parts = split(entry, '/');
    if parts.len() < 7 {
        Err(
            FailureView {
                kind: ErrorKind::VersionParseError,
                path: entry,
                detail: no_linux_version(),
            },
        )
    } else {
        Ok(parts[6])
    }
}

/// The store directory that `target` lies in.
pub fn module_dir(target: &str) -> (r: Result<String, Failure>)
    ensures
        result_view(r) == spec_module_dir(target@),
{
    let parts = split_chars(&to_chars(target), '/');
    if parts.len() < 4 {
        return Err(
            Failure::new(
                ErrorKind::PathResolutionError,
                target,
                "Cannot find the module's directory in /nix/store",
            ),
        );
    }
    let mut dir: Vec<char> = vec!['/'];
    let mut rest = join_chars(&parts, 1, 4, '/');
    dir.append(&mut rest);
    assert(dir@ == seq!['/'] + join(split(target@, '/').subrange(1, 4), '/'));
    Ok(to_string(&dir))
}

/// The directory of `store_path` that holds the kernel's modules.
pub fn modules_path(store_path: &str) -> (r: String)
    ensures
        r@ == spec_modules_path(store_path@),
{
    let mut path = store_path.to_owned();
    path.append("/lib/modules");
    path
}

/// The kernel version that the path of an entry holds.
pub fn version_in_entry(entry: &str) -> (r: Result<String, Failure>)
    ensures
        result_view(r) == spec_version_in_entry(entry@),
{
    let parts = split_chars(&to_chars(entry), '/');
    if parts.len() < 7 {
        return Err(
            Failure::new(
                ErrorKind::VersionParseError,
                entry,
                "Could not determine Linux kernel version from path",
            ),
        );
    }
    assert(views(parts@)[6] == parts@[6]@);
    Ok(to_string(&parts[6]))
}

impl ModuleType {
    /// The components in the order in which they are looked at.
    pub open spec fn registry() -> Seq<ModuleType> {
        seq![ModuleType::LinuxKernel, ModuleType::Systemd]
    }

    /// The components in the order in which they are looked at.
    pub fn all() -> (r: Vec<ModuleType>)
        ensures
            r@ == ModuleType::registry(),
    {
        vec![ModuleType::LinuxKernel, ModuleType::Systemd]
    }

    /// The component's name, as `name` gives it.
    pub open spec fn spec_name(self) -> Seq<char> {
        match self {
            ModuleType::LinuxKernel => "Linux Kernel"@,
            ModuleType::Systemd => "Systemd"@,
        }
    }

    /// The component's name for messages.
    pub fn name(&self) -> (r: String)
        ensures
            r@ == self.spec_name(),
    {
        match self {
            ModuleType::LinuxKernel => "Linux Kernel".to_owned(),
            ModuleType::Systemd => "Systemd".to_owned(),
        }
    }

    /// What follows the system root in the path of the component's symlink.
    pub open spec fn spec_suffix(self) -> Seq<char> {
        match self {
            ModuleType::LinuxKernel => "/kernel"@,
            ModuleType::Systemd => "/systemd"@,
        }
    }

    /// What follows the system root in the path of the component's symlink.
    pub fn suffix(&self) -> (r: &'static str)
        ensures
            r@ == self.spec_suffix(),
    {
        match self {
            ModuleType::LinuxKernel => "/kernel",
            ModuleType::Systemd => "/systemd",
        }
    }

    /// Whether the link's target is cut back to the store directory it lies in.
    pub open spec fn spec_strip_suffix(self) -> bool {
        self == ModuleType::LinuxKernel
    }

    /// Whether the link's target is cut back to the store directory it lies in:
    /// the kernel's link points deep into its package, that of Systemd at it.
    pub fn strip_suffix(&self) -> (r: bool)
        ensures
            r == self.spec_strip_suffix(),
    {
        match self {
            ModuleType::Systemd => false,
            ModuleType::LinuxKernel => true,
        }
    }

    /// The path of the component's symlink under `system_path`.
    pub open spec fn spec_link_path(self, system_path: Seq<char>) -> Seq<char> {
        system_path + self.spec_suffix()
    }

    /// The path of the component's symlink under `system_path`.
    pub fn link_path(&self, system_path: &str) -> (r: String)
        ensures
            r@ == self.spec_link_path(system_path@),
    {
        let mut path = system_path.to_owned();
        path.append(self.suffix());
        path
    }

    /// The path that stands for the component under `system_path`, as far as
    /// `seen` tells: the target of the component's symlink, cut back to its store
    /// directory for a component that asks for it. A link that has not been read
    /// halts with the request to read it; an unreadable one and a target too short
    /// to cut back fail as `PathResolutionError`.
    pub open spec fn spec_get_nix_store_path(
        self,
        seen: ReadingsView,
        system_path: Seq<char>,
    ) -> Result<Seq<char>, HaltView> {
        let link = self.spec_link_path(system_path);
        if !seen.links.contains_key(link) {
            Err(HaltView::ReadLink(link))
        } else {
            match seen.links[link] {
                LinkReadingView::Unreadable(detail) => Err(
                    HaltView::Failed(
                        FailureView { kind: ErrorKind::PathResolutionError, path: link, detail },
                    ),
                ),
                LinkReadingView::Target(target) => if self.spec_strip_suffix() {
                    or_halt(spec_module_dir(target))
                } else {
                    Ok(target)
                },
            }
        }
    }

    /// Whether the component's symlink under `system_path` is missing from `seen`,
    /// unreadable, or too short to be cut back where the component asks for that.
    pub open spec fn spec_link_fails(self, seen: ReadingsView, system_path: Seq<char>) -> bool {
        let link = self.spec_link_path(system_path);
        !seen.links.contains_key(link) || match seen.links[link] {
            LinkReadingView::Unreadable(_) => true,
            LinkReadingView::Target(target) => self.spec_strip_suffix() && count(target, '/')
                < 3,
        }
    }

    /// The path that stands for the component under `system_path`.
    pub fn get_nix_store_path(&self, seen: &Readings, system_path: &str) -> (r: Result<
        String,
        Halt,
    >)
        ensures
            result_view(r) == self.spec_get_nix_store_path(seen@, system_path@),
    {
        let link = self.link_path(system_path);
        match seen.links.get(link.as_str()) {
            None => Err(Halt::ReadLink(link)),
            Some(LinkReading::Unreadable(detail)) => Err(
                Halt::Failed(
                    Failure::new(
                        ErrorKind::PathResolutionError,
                        link.as_str(),
                        detail.as_str(),
                    ),
                ),
            ),
            Some(LinkReading::Target(target)) => {
                if self.strip_suffix() {
                    match module_dir(target.as_str()) {
                        Ok(dir) => Ok(dir),
                        Err(error) => Err(Halt::Failed(error)),
                    }
                } else {
                    Ok(target.clone())
                }
            },
        }
    }

    /// The kernel version found under the directory `linux_path`, as far as
    /// `seen` tells: the version in the path of the directory's first entry. A
    /// directory that has not been listed halts with the request to list it; an
    /// unreadable or empty one fails as `VersionParseError`, an unreadable first
    /// entry as `IOError`.
    pub open spec fn spec_get_linux_version(seen: ReadingsView, linux_path: Seq<char>) -> Result<
        Seq<char>,
        HaltView,
    > {
        if !seen.dirs.contains_key(linux_path) {
            Err(HaltView::ListDir(linux_path))
        } else {
            match seen.dirs[linux_path] {
                DirReadingView::Unreadable(detail) => Err(
                    HaltView::Failed(
                        FailureView {
                            kind: ErrorKind::VersionParseError,
                            path: linux_path,
                            detail,
                        },
                    ),
                ),
                DirReadingView::Empty => Err(
                    HaltView::Failed(
                        FailureView {
                            kind: ErrorKind::VersionParseError,
                            path: linux_path,
                            detail: no_entry(),
                        },
                    ),
                ),
                DirReadingView::EntryUnreadable(detail) => Err(
                    HaltView::Failed(
                        FailureView { kind: ErrorKind::IOError, path: linux_path, detail },
                    ),
                ),
                DirReadingView::FirstEntry(entry) => or_halt(spec_version_in_entry(entry)),
            }
        }
    }

    /// The kernel version found under the directory `linux_path`.
    pub fn get_linux_version(seen: &Readings, linux_path: &str) -> (r: Result<String, Halt>)
        ensures
            result_view(r) == ModuleType::spec_get_linux_version(seen@, linux_path@),
    {
        match seen.dirs.get(linux_path) {
            None => Err(Halt::ListDir(linux_path.to_owned())),
            Some(DirReading::Unreadable(detail)) => Err(
                Halt::Failed(
                    Failure::new(ErrorKind::VersionParseError, linux_path, detail.as_str()),
                ),
            ),
            Some(DirReading::Empty) => Err(
                Halt::Failed(
                    Failure::new(
                        ErrorKind::VersionParseError,
                        linux_path,
                        "Expected one directory",
                    ),
                ),
            ),
            Some(DirReading::EntryUnreadable(detail)) => Err(
                Halt::Failed(Failure::new(ErrorKind::IOError, linux_path, detail.as_str())),
            ),
            Some(DirReading::FirstEntry(entry)) => match version_in_entry(entry.as_str()) {
                Ok(version) => Ok(version),
                Err(error) => Err(Halt::Failed(error)),
            },
        }
    }

    /// The version of Systemd that `systemd_path` holds: what follows the second
    /// hyphen, that is the parts between hyphens from the third on, joined with
    /// hyphens again. A path of fewer than three parts fails as `VersionParseError`.
    pub open spec fn spec_get_systemd_version(systemd_path: Seq<char>) -> Result<
        Seq<char>,
        FailureView,
    > {
        let parts = split(systemd_path, '-');
        if parts.len() < 3 {
            Err(
                FailureView {
                    kind: ErrorKind::VersionParseError,
                    path: systemd_path,
                    detail: no_systemd_version(),
                },
            )
        } else {
            Ok(join(parts.subrange(2, parts.len() as int), '-'))
        }
    }

    /// The version of Systemd that `systemd_path` holds.
    pub fn get_systemd_version(systemd_path: &str) -> (r: Result<String, Failure>)
        ensures
            result_view(r) == ModuleType::spec_get_systemd_version(systemd_path@),
    {
        let parts = split_chars(&to_chars(systemd_path), '-');
        if parts.len() < 3 {
            return Err(
                Failure::new(
                    ErrorKind::VersionParseError,
                    systemd_path,
                    "Could not determine Systemd version from path",
                ),
            );
        }
        Ok(to_string(&join_chars(&parts, 2, parts.len(), '-')))
    }

    /// The version that the path found for the component holds, as far as `seen`
    /// tells.
    pub open spec fn spec_version_at(self, seen: ReadingsView, store_path: Seq<char>) -> Result<
        Seq<char>,
        HaltView,
    > {
        match self {
            ModuleType::LinuxKernel => ModuleType::spec_get_linux_version(
                seen,
                spec_modules_path(store_path),
            ),
            ModuleType::Systemd => or_halt(ModuleType::spec_get_systemd_version(store_path)),
        }
    }

    /// The component's versions in the old and in the new system, as far as `seen`
    /// tells. Both paths are found first, the old one before the new one, then
    /// both versions, in the same order; what halts first is what is returned.
    pub open spec fn spec_get_version(
        self,
        seen: ReadingsView,
        old_root: Seq<char>,
        new_root: Seq<char>,
    ) -> Result<(Seq<char>, Seq<char>), HaltView> {
        match self.spec_get_nix_store_path(seen, old_root) {
            Err(halt) => Err(halt),
            Ok(old_path) => match self.spec_get_nix_store_path(seen, new_root) {
                Err(halt) => Err(halt),
                Ok(new_path) => match self.spec_version_at(seen, old_path) {
                    Err(halt) => Err(halt),
                    Ok(old_version) => match self.spec_version_at(seen, new_path) {
                        Err(halt) => Err(halt),
                        Ok(new_version) => Ok((old_version, new_version)),
                    },
                },
            },
        }
    }

    /// The version that the path found for the component holds.
    pub fn version_at(&self, seen: &Readings, store_path: &str) -> (r: Result<String, Halt>)
        ensures
            result_view(r) == self.spec_version_at(seen@, store_path@),
    {
        match self {
            ModuleType::LinuxKernel => {
                let linux_path = modules_path(store_path);
                ModuleType::get_linux_version(seen, linux_path.as_str())
            },
            ModuleType::Systemd => match ModuleType::get_systemd_version(store_path) {
                Ok(version) => Ok(version),
                Err(error) => Err(Halt::Failed(error)),
            },
        }
    }

    /// The component's versions in the system under `old_root` and in that under
    /// `new_root`.
    pub fn get_version(&self, seen: &Readings, old_root: &str, new_root: &str) -> (r: Result<
        (String, String),
        Halt,
    >)
        ensures
            result_view(r) == self.spec_get_version(seen@, old_root@, new_root@),
    {
        let old_module_root_path = match self.get_nix_store_path(seen, old_root) {
            Ok(path) => path,
            Err(halt) => { return Err(halt); },
        };
        let new_module_root_path = match self.get_nix_store_path(seen, new_root) {
            Ok(path) => path,
            Err(halt) => { return Err(halt); },
        };
        let old_module_version = match self.version_at(seen, old_module_root_path.as_str()) {
            Ok(version) => version,
            Err(halt) => { return Err(halt); },
        };
        let new_module_version = match self.version_at(seen, new_module_root_path.as_str()) {
            Ok(version) => version,
            Err(halt) => { return Err(halt); },
        };
        Ok((old_module_version, new_module_version))
    }
}

/// A link's target has a store directory exactly where it holds three slashes or
/// more.
pub proof fn lemma_module_dir_needs_three_slashes(target: Seq<char>)
    ensures
        spec_module_dir(target) is Ok <==> count(target, '/') >= 3,
{
    lemma_split_len(target, '/');
}

/// The store directory of a target is what stands between its first and its
/// fourth slash, behind a slash of its own: of `a/b/c/e` and of `a/b/c/e/rest`,
/// where `a`, `b`, `c` and `e` hold no slash, it is `/b/c/e`.
pub proof fn lemma_module_dir_is_the_first_three_names(
    a: Seq<char>,
    b: Seq<char>,
    c: Seq<char>,
    e: Seq<char>,
    rest: Seq<char>,
    target: Seq<char>,
)
    requires
        !a.contains('/'),
        !b.contains('/'),
        !c.contains('/'),
        !e.contains('/'),
        target == a.push('/') + (b.push('/') + (c.push('/') + e)) || target == a.push('/') + (
        b.push('/') + (c.push('/') + (e.push('/') + rest))),
    ensures
        spec_module_dir(target) == Ok::<Seq<char>, FailureView>(
            seq!['/'] + b + seq!['/'] + c + seq!['/'] + e,
        ),
{
    let tail = if target == a.push('/') + (b.push('/') + (c.push('/') + e)) {
        e
    } else {
        e.push('/') + rest
    };
    lemma_split_without_sep(a, '/');
    lemma_split_without_sep(b, '/');
    lemma_split_without_sep(c, '/');
    lemma_split_without_sep(e, '/');
    lemma_split_around_sep(a, b.push('/') + (c.push('/') + tail), '/');
    lemma_split_around_sep(b, c.push('/') + tail, '/');
    lemma_split_around_sep(c, tail, '/');
    if tail != e {
        lemma_split_around_sep(e, rest, '/');
    }
    lemma_split_len(rest, '/');
    let parts = split(target, '/');
    assert(parts == seq![a] + (seq![b] + (seq![c] + split(tail, '/'))));
    assert(split(tail, '/')[0] == e);
    let chosen = parts.subrange(1, 4);
    assert(chosen == seq![b, c, e]);
    assert(chosen.drop_last() == seq![b, c]);
    assert(chosen.drop_last().drop_last() == seq![b]);
    assert(join(seq![b], '/') == b);
    assert(join(seq![b, c], '/') == b.push('/') + c);
    assert(join(chosen, '/') == (b.push('/') + c).push('/') + e);
    assert(seq!['/'] + join(chosen, '/') == seq!['/'] + b + seq!['/'] + c + seq!['/'] + e);
}

/// The path of an entry holds a kernel version exactly where it holds six slashes
/// or more.
pub proof fn lemma_version_in_entry_needs_six_slashes(entry: Seq<char>)
    ensures
        spec_version_in_entry(entry) is Ok <==> count(entry, '/') >= 6,
{
    lemma_split_len(entry, '/');
}

/// A path holds a version of Systemd exactly where it holds two hyphens or more.
pub proof fn lemma_systemd_version_needs_two_hyphens(systemd_path: Seq<char>)
    ensures
        ModuleType::spec_get_systemd_version(systemd_path) is Ok <==> count(systemd_path, '-')
            >= 2,
{
    lemma_split_len(systemd_path, '-');
}

/// The version of Systemd is all that follows the second hyphen of the path: of
/// `a-b-version`, where `a` and `b` hold no hyphen, it is `version`, with all the
/// hyphens of its own.
pub proof fn lemma_systemd_version_follows_second_hyphen(
    a: Seq<char>,
    b: Seq<char>,
    version: Seq<char>,
)
    requires
        !a.contains('-'),
        !b.contains('-'),
    ensures
        ModuleType::spec_get_systemd_version(a.push('-') + (b.push('-') + version)) == Ok::<
            Seq<char>,
            FailureView,
        >(version),
{
    let path = a.push('-') + (b.push('-') + version);
    lemma_split_without_sep(a, '-');
    lemma_split_without_sep(b, '-');
    lemma_split_around_sep(a, b.push('-') + version, '-');
    lemma_split_around_sep(b, version, '-');
    lemma_split_len(version, '-');
    lemma_join_split(version, '-');
    let parts = split(path, '-');
    assert(parts == seq![a] + (seq![b] + split(version, '-')));
    assert(parts.subrange(2, parts.len() as int) == split(version, '-'));
}

} // verus!
