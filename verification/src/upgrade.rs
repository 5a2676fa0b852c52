//! The decision: whether some tracked component is newer in the new system than
//! in the old one.

use crate::error::{result_view, ErrorKind, Failure, FailureView};
use crate::halt::{Halt, HaltView};
use crate::module_type::{lemma_module_dir_needs_three_slashes, ModuleType};
use crate::readings::{LinkReadingView, Readings, ReadingsView};
use crate::version::{needs_upgrade, spec_needs_upgrade};
use vstd::prelude::*;

verus! {

/// The decision over `components`, taken in their order, as far as `seen` tells.
/// The first component whose new version calls for an upgrade decides for `true`,
/// and nothing is asked of the components after it. Where no component does, the
/// decision is `false`. What halts the finding of a component's versions halts the
/// decision.
pub open spec fn spec_evaluate_from(
    components: Seq<ModuleType>,
    seen: ReadingsView,
    old_root: Seq<char>,
    new_root: Seq<char>,
) -> Result<bool, HaltView>
    decreases components.len(),
{
    if components.len() == 0 {
        Ok(false)
    } else {
        match components[0].spec_get_version(seen, old_root, new_root) {
            Err(halt) => Err(halt),
            Ok(versions) => if spec_needs_upgrade(versions.0, versions.1) {
                Ok(true)
            } else {
                spec_evaluate_from(components.skip(1), seen, old_root, new_root)
            },
        }
    }
}

/// The first of `components` whose new version calls for an upgrade, as far as
/// `seen` tells; none where the versions of all were found and none does. What
/// halts the finding of a component's versions halts the search.
pub open spec fn spec_first_outdated_from(
    components: Seq<ModuleType>,
    seen: ReadingsView,
    old_root: Seq<char>,
    new_root: Seq<char>,
) -> Result<Option<ModuleType>, HaltView>
    decreases components.len(),
{
    if components.len() == 0 {
        Ok(None)
    } else {
        match components[0].spec_get_version(seen, old_root, new_root) {
            Err(halt) => Err(halt),
            Ok(versions) => if spec_needs_upgrade(versions.0, versions.1) {
                Ok(Some(components[0]))
            } else {
                spec_first_outdated_from(components.skip(1), seen, old_root, new_root)
            },
        }
    }
}

/// The first of the tracked components whose new version calls for an upgrade.
pub open spec fn spec_first_outdated(
    seen: ReadingsView,
    old_root: Seq<char>,
    new_root: Seq<char>,
) -> Result<Option<ModuleType>, HaltView> {
    spec_first_outdated_from(ModuleType::registry(), seen, old_root, new_root)
}

/// The decision over all tracked components, as far as `seen` tells.
pub open spec fn spec_evaluate(seen: ReadingsView, old_root: Seq<char>, new_root: Seq<char>)
    -> Result<bool, HaltView> {
    spec_evaluate_from(ModuleType::registry(), seen, old_root, new_root)
}

/// The finding that a symlink is not among the readings.
pub open spec fn no_link() -> Seq<char> {
    "Missing symlink"@
}

/// The finding that a directory is not among the readings.
pub open spec fn no_listing() -> Seq<char> {
    "Missing directory"@
}

/// The failure that a halt stands for once nothing more will be read: what has
/// not been read does not exist.
pub open spec fn spec_settle(halt: HaltView) -> FailureView {
    match halt {
        HaltView::Failed(error) => error,
        HaltView::ReadLink(path) => FailureView {
            kind: ErrorKind::PathResolutionError,
            path,
            detail: no_link(),
        },
        HaltView::ListDir(path) => FailureView {
            kind: ErrorKind::VersionParseError,
            path,
            detail: no_listing(),
        },
    }
}

/// The decision over all tracked components where `seen` is all there is.
pub open spec fn spec_upgrades_available(
    seen: ReadingsView,
    old_root: Seq<char>,
    new_root: Seq<char>,
) -> Result<bool, FailureView> {
    match spec_evaluate(seen, old_root, new_root) {
        Ok(decision) => Ok(decision),
        Err(halt) => Err(spec_settle(halt)),
    }
}

/// The first of the tracked components whose new version calls for an upgrade, as
/// far as `seen` tells; `None` where no component does. `Err(Halt::ReadLink(..))`
/// and `Err(Halt::ListDir(..))` name what has to be read, and is not among the
/// readings yet, before the search can go on.
pub fn first_outdated(seen: &Readings, old_root: &str, new_root: &str) -> (r: Result<
    Option<ModuleType>,
    Halt,
>)
    ensures
        match r {
            Ok(found) => spec_first_outdated(seen@, old_root@, new_root@) == Ok::<
                Option<ModuleType>,
                HaltView,
            >(found),
            Err(halt) => spec_first_outdated(seen@, old_root@, new_root@) == Err::<
                Option<ModuleType>,
                HaltView,
            >(halt@),
        },
        r matches Err(Halt::ReadLink(path)) ==> !seen@.links.contains_key(path@),
        r matches Err(Halt::ListDir(path)) ==> !seen@.dirs.contains_key(path@),
{
    let modules = ModuleType::all();
    let mut i: usize = 0;
    assert(modules@.skip(0) == modules@);
    while i < modules.len()
        invariant
            i <= modules.len(),
            modules@ == ModuleType::registry(),
            spec_first_outdated(seen@, old_root@, new_root@) == spec_first_outdated_from(
                modules@.skip(i as int),
                seen@,
                old_root@,
                new_root@,
            ),
        decreases modules.len() - i,
    {
        let module = modules[i];
        assert(modules@.skip(i as int)[0] == module);
        assert(modules@.skip(i as int).skip(1) == modules@.skip(i + 1));
        match module.get_version(seen, old_root, new_root) {
            Err(halt) => {
                proof {
                    lemma_requests_are_new(module, seen@, old_root@, new_root@);
                }
                return Err(halt);
            },
            Ok((old_module_version, new_module_version)) => {
                if needs_upgrade(old_module_version.as_str(), new_module_version.as_str()) {
                    return Ok(Some(module));
                }
            },
        }
        i += 1;
    }
    Ok(None)
}

/// Decides as far as `seen` tells whether the system under `new_root` calls for an
/// upgrade from that under `old_root`. `Err(Halt::ReadLink(..))` and
/// `Err(Halt::ListDir(..))` name what has to be read, and is not among the
/// readings yet, before the decision can go on.
pub fn evaluate(seen: &Readings, old_root: &str, new_root: &str) -> (r: Result<bool, Halt>)
    ensures
        result_view(r) == spec_evaluate(seen@, old_root@, new_root@),
        r matches Err(Halt::ReadLink(path)) ==> !seen@.links.contains_key(path@),
        r matches Err(Halt::ListDir(path)) ==> !seen@.dirs.contains_key(path@),
{
    proof {
        lemma_decision_is_whether_one_is_outdated(
            ModuleType::registry(),
            seen@,
            old_root@,
            new_root@,
        );
    }
    match first_outdated(seen, old_root, new_root) {
        Ok(found) => Ok(found.is_some()),
        Err(halt) => Err(halt),
    }
}

/// The failure that `halt` stands for once nothing more will be read.
pub fn settle(halt: Halt) -> (r: Failure)
    ensures
        r@ == spec_settle(halt@),
{
    match halt {
        Halt::Failed(error) => error,
        Halt::ReadLink(path) => Failure::new(
            ErrorKind::PathResolutionError,
            path.as_str(),
            "Missing symlink",
        ),
        Halt::ListDir(path) => Failure::new(
            ErrorKind::VersionParseError,
            path.as_str(),
            "Missing directory",
        ),
    }
}

/// Decides whether the system under `new_root` calls for an upgrade from that
/// under `old_root`, where `seen` holds all that the filesystem has: a symlink or
/// a directory that is not among the readings is missing.
pub fn upgrades_available(seen: &Readings, old_root: &str, new_root: &str) -> (r: Result<
    bool,
    Failure,
>)
    ensures
        result_view(r) == spec_upgrades_available(seen@, old_root@, new_root@),
{
    match evaluate(seen, old_root, new_root) {
        Ok(decision) => Ok(decision),
        Err(halt) => Err(settle(halt)),
    }
}

/// What the finding of a component's versions asks to be read is not among the
/// readings.
pub proof fn lemma_requests_are_new(
    module: ModuleType,
    seen: ReadingsView,
    old_root: Seq<char>,
    new_root: Seq<char>,
)
    ensures
        module.spec_get_version(seen, old_root, new_root) matches Err(HaltView::ReadLink(path))
            ==> !seen.links.contains_key(path),
        module.spec_get_version(seen, old_root, new_root) matches Err(HaltView::ListDir(path))
            ==> !seen.dirs.contains_key(path),
{
}

/// Whether both versions of the component were found and the new one calls for an
/// upgrade.
pub open spec fn found_outdated(
    module: ModuleType,
    seen: ReadingsView,
    old_root: Seq<char>,
    new_root: Seq<char>,
) -> bool {
    module.spec_get_version(seen, old_root, new_root) matches Ok(versions) && spec_needs_upgrade(
        versions.0,
        versions.1,
    )
}

/// Whether both versions of the component were found and the new one calls for no
/// upgrade.
pub open spec fn found_current(
    module: ModuleType,
    seen: ReadingsView,
    old_root: Seq<char>,
    new_root: Seq<char>,
) -> bool {
    module.spec_get_version(seen, old_root, new_root) matches Ok(versions) && !spec_needs_upgrade(
        versions.0,
        versions.1,
    )
}

/// Whether both versions of the component were found and are the same.
pub open spec fn found_unchanged(
    module: ModuleType,
    seen: ReadingsView,
    old_root: Seq<char>,
    new_root: Seq<char>,
) -> bool {
    module.spec_get_version(seen, old_root, new_root) matches Ok(versions) && versions.0
        == versions.1
}

/// The decision is `true` exactly where some component is found outdated, and
/// halts with what the search for the first such component halts with.
pub proof fn lemma_decision_is_whether_one_is_outdated(
    components: Seq<ModuleType>,
    seen: ReadingsView,
    old_root: Seq<char>,
    new_root: Seq<char>,
)
    ensures
        spec_evaluate_from(components, seen, old_root, new_root) == match spec_first_outdated_from(
            components,
            seen,
            old_root,
            new_root,
        ) {
            Ok(found) => Ok::<bool, HaltView>(found is Some),
            Err(halt) => Err::<bool, HaltView>(halt),
        },
    decreases components.len(),
{
    if components.len() > 0 {
        lemma_decision_is_whether_one_is_outdated(components.skip(1), seen, old_root, new_root);
    }
}

/// The component that the search gives is outdated: both its versions were found,
/// and the new one calls for an upgrade.
pub proof fn lemma_first_outdated_is_outdated(
    components: Seq<ModuleType>,
    seen: ReadingsView,
    old_root: Seq<char>,
    new_root: Seq<char>,
)
    ensures
        spec_first_outdated_from(components, seen, old_root, new_root) matches Ok(Some(module))
            ==> components.contains(module) && found_outdated(module, seen, old_root, new_root),
    decreases components.len(),
{
    if components.len() > 0 {
        let rest = components.skip(1);
        lemma_first_outdated_is_outdated(rest, seen, old_root, new_root);
        assert(components[0] == components[0]);
        if let Ok(Some(module)) = spec_first_outdated_from(rest, seen, old_root, new_root) {
            let k = choose|k: int| 0 <= k < rest.len() && rest[k] == module;
            assert(components[k + 1] == module);
        }
    }
}

/// Whether a halt asks for something to be read.
pub open spec fn is_request(halt: HaltView) -> bool {
    halt is ReadLink || halt is ListDir
}

/// Whether `later` holds every reading of `earlier`, unchanged.
pub open spec fn extends(later: ReadingsView, earlier: ReadingsView) -> bool {
    earlier.links.submap_of(later.links) && earlier.dirs.submap_of(later.dirs)
}

/// The first component whose new version calls for an upgrade decides for `true`:
/// where the components before the one at `k` have versions that call for none,
/// and that at `k` has versions that do, the decision is `true` whatever the
/// readings hold, or lack, for the components after it.
pub proof fn lemma_upgrade_decides(
    components: Seq<ModuleType>,
    k: int,
    seen: ReadingsView,
    old_root: Seq<char>,
    new_root: Seq<char>,
)
    requires
        0 <= k < components.len(),
        forall|j: int|
            0 <= j < k ==> found_current(#[trigger] components[j], seen, old_root, new_root),
        found_outdated(components[k], seen, old_root, new_root),
    ensures
        spec_evaluate_from(components, seen, old_root, new_root) == Ok::<bool, HaltView>(true),
    decreases k,
{
    if k > 0 {
        let rest = components.skip(1);
        assert forall|j: int| 0 <= j < k - 1 implies found_current(
            #[trigger] rest[j],
            seen,
            old_root,
            new_root,
        ) by {
            assert(rest[j] == components[j + 1]);
        }
        assert(rest[k - 1] == components[k]);
        lemma_upgrade_decides(rest, k - 1, seen, old_root, new_root);
    }
}

/// Where the first tracked component calls for an upgrade, the decision is `true`
/// and nothing is asked of the components after it: they may be missing from the
/// readings, or fail.
pub proof fn lemma_first_upgrade_decides(
    seen: ReadingsView,
    old_root: Seq<char>,
    new_root: Seq<char>,
)
    requires
        found_outdated(ModuleType::registry()[0], seen, old_root, new_root),
    ensures
        spec_evaluate(seen, old_root, new_root) == Ok::<bool, HaltView>(true),
        spec_upgrades_available(seen, old_root, new_root) == Ok::<bool, FailureView>(true),
{
    lemma_upgrade_decides(ModuleType::registry(), 0, seen, old_root, new_root);
}

/// Where every component has the same version in both systems, the decision is
/// `false`.
pub proof fn lemma_equal_versions_call_for_no_upgrade(
    components: Seq<ModuleType>,
    seen: ReadingsView,
    old_root: Seq<char>,
    new_root: Seq<char>,
)
    requires
        forall|j: int|
            0 <= j < components.len() ==> found_unchanged(
                #[trigger] components[j],
                seen,
                old_root,
                new_root,
            ),
    ensures
        spec_evaluate_from(components, seen, old_root, new_root) == Ok::<bool, HaltView>(false),
    decreases components.len(),
{
    if components.len() > 0 {
        let rest = components.skip(1);
        assert forall|j: int| 0 <= j < rest.len() implies found_unchanged(
            #[trigger] rest[j],
            seen,
            old_root,
            new_root,
        ) by {
            assert(rest[j] == components[j + 1]);
        }
        lemma_equal_versions_call_for_no_upgrade(rest, seen, old_root, new_root);
    }
}

/// A system held against itself never calls for an upgrade.
pub proof fn lemma_same_root_calls_for_no_upgrade(
    components: Seq<ModuleType>,
    seen: ReadingsView,
    root: Seq<char>,
)
    ensures
        spec_evaluate_from(components, seen, root, root) != Ok::<bool, HaltView>(true),
    decreases components.len(),
{
    if components.len() > 0 {
        lemma_same_root_calls_for_no_upgrade(components.skip(1), seen, root);
    }
}

/// A component whose symlink fails under either root has no versions: the
/// finding halts, and what it halts with stands for a `PathResolutionError`.
pub proof fn lemma_failing_link_is_path_resolution_error(
    module: ModuleType,
    seen: ReadingsView,
    old_root: Seq<char>,
    new_root: Seq<char>,
)
    requires
        module.spec_link_fails(seen, old_root) || module.spec_link_fails(seen, new_root),
    ensures
        module.spec_get_version(seen, old_root, new_root) matches Err(halt) && spec_settle(
            halt,
        ).kind == ErrorKind::PathResolutionError,
{
    let old_link = module.spec_link_path(old_root);
    let new_link = module.spec_link_path(new_root);
    if seen.links.contains_key(old_link) {
        if let LinkReadingView::Target(target) = seen.links[old_link] {
            lemma_module_dir_needs_three_slashes(target);
        }
    }
    if seen.links.contains_key(new_link) {
        if let LinkReadingView::Target(target) = seen.links[new_link] {
            lemma_module_dir_needs_three_slashes(target);
        }
    }
}

/// The failing symlink of a component is reported: where the components before
/// the one at `k` have versions that call for no upgrade, and the symlink of that
/// at `k` fails under either root, the decision fails as `PathResolutionError`.
pub proof fn lemma_failing_link_is_reported(
    components: Seq<ModuleType>,
    k: int,
    seen: ReadingsView,
    old_root: Seq<char>,
    new_root: Seq<char>,
)
    requires
        0 <= k < components.len(),
        forall|j: int|
            0 <= j < k ==> found_current(#[trigger] components[j], seen, old_root, new_root),
        components[k].spec_link_fails(seen, old_root) || components[k].spec_link_fails(
            seen,
            new_root,
        ),
    ensures
        spec_evaluate_from(components, seen, old_root, new_root) matches Err(halt) && spec_settle(
            halt,
        ).kind == ErrorKind::PathResolutionError,
    decreases k,
{
    if k == 0 {
        lemma_failing_link_is_path_resolution_error(components[0], seen, old_root, new_root);
    } else {
        let rest = components.skip(1);
        assert forall|j: int| 0 <= j < k - 1 implies found_current(
            #[trigger] rest[j],
            seen,
            old_root,
            new_root,
        ) by {
            assert(rest[j] == components[j + 1]);
        }
        assert(rest[k - 1] == components[k]);
        lemma_failing_link_is_reported(rest, k - 1, seen, old_root, new_root);
    }
}

/// No symlink fails in silence: where the symlink of any tracked component fails
/// under either root, the decision is not `false`.
pub proof fn lemma_no_silent_false(
    module: ModuleType,
    seen: ReadingsView,
    old_root: Seq<char>,
    new_root: Seq<char>,
)
    requires
        module.spec_link_fails(seen, old_root) || module.spec_link_fails(seen, new_root),
    ensures
        spec_upgrades_available(seen, old_root, new_root) != Ok::<bool, FailureView>(false),
{
    let all = ModuleType::registry();
    let k: int = if module == ModuleType::LinuxKernel { 0 } else { 1 };
    assert(all[k] == module);
    lemma_no_false_behind_failing_link(all, k, seen, old_root, new_root);
}

/// Where the symlink of the component at `k` fails, the decision over
/// `components` is not `false`.
proof fn lemma_no_false_behind_failing_link(
    components: Seq<ModuleType>,
    k: int,
    seen: ReadingsView,
    old_root: Seq<char>,
    new_root: Seq<char>,
)
    requires
        0 <= k < components.len(),
        components[k].spec_link_fails(seen, old_root) || components[k].spec_link_fails(
            seen,
            new_root,
        ),
    ensures
        spec_evaluate_from(components, seen, old_root, new_root) != Ok::<bool, HaltView>(false),
    decreases k,
{
    if k == 0 {
        lemma_failing_link_is_path_resolution_error(components[0], seen, old_root, new_root);
    } else {
        assert(components.skip(1)[k - 1] == components[k]);
        lemma_no_false_behind_failing_link(components.skip(1), k - 1, seen, old_root, new_root);
    }
}

/// What a component's versions were found to be, or failed with, stays so
/// when more is read.
pub proof fn lemma_versions_stand(
    module: ModuleType,
    earlier: ReadingsView,
    later: ReadingsView,
    old_root: Seq<char>,
    new_root: Seq<char>,
)
    requires
        extends(later, earlier),
        !(module.spec_get_version(earlier, old_root, new_root) matches Err(halt) && is_request(
            halt,
        )),
    ensures
        module.spec_get_version(later, old_root, new_root) == module.spec_get_version(
            earlier,
            old_root,
            new_root,
        ),
{
    let old_link = module.spec_link_path(old_root);
    let new_link = module.spec_link_path(new_root);
    assert(earlier.links.contains_key(old_link));
    assert(later.links.contains_key(old_link) && later.links[old_link] == earlier.links[old_link]);
    if let Ok(old_path) = module.spec_get_nix_store_path(earlier, old_root) {
        assert(earlier.links.contains_key(new_link));
        assert(later.links.contains_key(new_link) && later.links[new_link]
            == earlier.links[new_link]);
        if let Ok(new_path) = module.spec_get_nix_store_path(earlier, new_root) {
            lemma_version_stands(module, earlier, later, old_path);
            if module.spec_version_at(earlier, old_path) is Ok {
                lemma_version_stands(module, earlier, later, new_path);
            }
        }
    }
}

/// What the version at a path was found to be, or failed with, stays so when more
/// is read.
proof fn lemma_version_stands(
    module: ModuleType,
    earlier: ReadingsView,
    later: ReadingsView,
    store_path: Seq<char>,
)
    requires
        extends(later, earlier),
        !(module.spec_version_at(earlier, store_path) matches Err(halt) && is_request(halt)),
    ensures
        module.spec_version_at(later, store_path) == module.spec_version_at(earlier, store_path),
{
    if module == ModuleType::LinuxKernel {
        let dir = crate::module_type::spec_modules_path(store_path);
        assert(earlier.dirs.contains_key(dir));
        assert(later.dirs.contains_key(dir) && later.dirs[dir] == earlier.dirs[dir]);
    }
}

/// A decision stands: once the evaluation has decided or failed, reading more
/// changes nothing.
pub proof fn lemma_decision_stands(
    components: Seq<ModuleType>,
    earlier: ReadingsView,
    later: ReadingsView,
    old_root: Seq<char>,
    new_root: Seq<char>,
)
    requires
        extends(later, earlier),
        !(spec_evaluate_from(components, earlier, old_root, new_root) matches Err(halt)
            && is_request(halt)),
    ensures
        spec_evaluate_from(components, later, old_root, new_root) == spec_evaluate_from(
            components,
            earlier,
            old_root,
            new_root,
        ),
    decreases components.len(),
{
    if components.len() > 0 {
        lemma_versions_stand(components[0], earlier, later, old_root, new_root);
        if let Ok(versions) = components[0].spec_get_version(earlier, old_root, new_root) {
            if !spec_needs_upgrade(versions.0, versions.1) {
                lemma_decision_stands(components.skip(1), earlier, later, old_root, new_root);
            }
        }
    }
}

} // verus!
