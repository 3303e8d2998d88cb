//! The project list: what is stored per project, how a project is read
//! from its `package.json`, which package manager it uses, and the edits
//! that the user makes to the list.

use vstd::prelude::*;
use crate::json;
use crate::json::{get_field, parse_json, JsonValue};
use crate::text;
use crate::text::{
    chars_of, contains_string, copy_opt, copy_pairs, copy_string, copy_strings, opt_view,
    pairs_view, push_hex, push_str, sort_strings, starts_with_in, str_eq, string_of,
    string_of_range, trim_range, views,
};

verus! {

/// How one script of a project is launched. `env` holds variable
/// assignments, each name once in a well-formed store (see `launches_wf`).
#[derive(Clone, Debug)]
pub struct LaunchConfig {
    pub port: Option<u16>,
    pub env: Vec<(String, String)>,
    pub env_file: Option<String>,
    pub extra_args: Option<String>,
}

/// What a launch configuration says.
pub struct LaunchConfigView {
    pub port: Option<u16>,
    pub env: Seq<(Seq<char>, Seq<char>)>,
    pub env_file: Option<Seq<char>>,
    pub extra_args: Option<Seq<char>>,
}

impl View for LaunchConfig {
    type V = LaunchConfigView;

    open spec fn view(&self) -> LaunchConfigView {
        LaunchConfigView {
            port: self.port,
            env: pairs_view(self.env@),
            env_file: opt_view(self.env_file),
            extra_args: opt_view(self.extra_args),
        }
    }
}

/// The view of an optional launch configuration.
pub open spec fn launch_view(o: Option<LaunchConfig>) -> Option<LaunchConfigView> {
    match o {
        Some(c) => Some(c@),
        None => None,
    }
}

/// A launch configuration that changes nothing: no port, no variables,
/// no env file, and no extra arguments beyond whitespace.
pub open spec fn launch_is_empty(c: LaunchConfigView) -> bool {
    &&& c.port is None
    &&& c.env.len() == 0
    &&& c.env_file is None
    &&& match c.extra_args {
        None => true,
        Some(a) => text::trim(a).len() == 0,
    }
}

impl LaunchConfig {
    /// A copy of this configuration.
    pub fn copy(&self) -> (r: LaunchConfig)
        ensures
            r@ == self@,
    {
        LaunchConfig {
            port: self.port,
            env: copy_pairs(&self.env),
            env_file: copy_opt(&self.env_file),
            extra_args: copy_opt(&self.extra_args),
        }
    }

    /// Whether this configuration changes nothing about a launch.
    pub fn is_empty(&self) -> (r: bool)
        ensures
            r == launch_is_empty(self@),
            self.port is Some ==> !r,
            self.env@.len() > 0 ==> !r,
            self.env_file is Some ==> !r,
    {
        self.port.is_none() && self.env.len() == 0 && self.env_file.is_none() && match &self.extra_args {
            None => true,
            Some(a) => text::is_blank(a.as_str()),
        }
    }
}


// ---------------------------------------------------------------------------
// Stored projects.
// ---------------------------------------------------------------------------

/// What the project list stores about one project folder. `launch` maps
/// script names to their launch configurations, each name once in a
/// well-formed store (`entry_wf`, which every edit keeps).
#[derive(Debug)]
pub struct StoreEntry {
    pub path: String,
    pub pinned: bool,
    pub package_manager: Option<String>,
    pub launch: Vec<(String, LaunchConfig)>,
    pub script_order: Vec<String>,
    pub autostart_scripts: Vec<String>,
}

/// What a stored project says.
pub struct StoreEntryView {
    pub path: Seq<char>,
    pub pinned: bool,
    pub package_manager: Option<Seq<char>>,
    pub launch: LaunchList,
    pub script_order: Seq<Seq<char>>,
    pub autostart_scripts: Seq<Seq<char>>,
}

/// Launch configurations by script name.
pub type LaunchList = Seq<(Seq<char>, LaunchConfigView)>;

/// The view of a list of launch configurations by script.
pub open spec fn launches_view(v: Seq<(String, LaunchConfig)>) -> LaunchList {
    v.map_values(|p: (String, LaunchConfig)| (p.0@, p.1@))
}

impl View for StoreEntry {
    type V = StoreEntryView;

    open spec fn view(&self) -> StoreEntryView {
        StoreEntryView {
            path: self.path@,
            pinned: self.pinned,
            package_manager: opt_view(self.package_manager),
            launch: launches_view(self.launch@),
            script_order: views(self.script_order@),
            autostart_scripts: views(self.autostart_scripts@),
        }
    }
}

/// The views of a list of stored projects.
pub open spec fn entries_view(v: Seq<StoreEntry>) -> Seq<StoreEntryView> {
    v.map_values(|e: StoreEntry| e@)
}

/// A copy of a list of launch configurations.
pub fn copy_launches(v: &Vec<(String, LaunchConfig)>) -> (r: Vec<(String, LaunchConfig)>)
    ensures
        launches_view(r@) == launches_view(v@),
{
    let mut out: Vec<(String, LaunchConfig)> = Vec::new();
    let mut i: usize = 0;
    while i < v.len()
        invariant
            i <= v@.len(),
            launches_view(out@) == launches_view(v@).take(i as int),
        decreases v.len() - i,
    {
        let ghost before = out@;
        out.push((v[i].0.clone(), v[i].1.copy()));
        assert(launches_view(out@) == launches_view(before) + seq![(v@[i as int].0@, v@[i as int].1@)]);
        i = i + 1;
        assert(launches_view(v@).take(i as int) == launches_view(v@).take(i - 1) + seq![
            launches_view(v@)[i - 1],
        ]);
    }
    assert(launches_view(v@).take(i as int) == launches_view(v@));
    out
}

impl StoreEntry {
    /// A new entry for the folder `path`: not pinned, nothing configured.
    pub fn new(path: &str) -> (r: StoreEntry)
        ensures
            r@ == new_entry(path@),
    {
        let launch: Vec<(String, LaunchConfig)> = Vec::new();
        let script_order: Vec<String> = Vec::new();
        let autostart_scripts: Vec<String> = Vec::new();
        assert(launches_view(launch@) == Seq::<(Seq<char>, LaunchConfigView)>::empty());
        assert(views(script_order@) == Seq::<Seq<char>>::empty());
        assert(views(autostart_scripts@) == Seq::<Seq<char>>::empty());
        StoreEntry {
            path: string_of(chars_of(path).as_slice()),
            pinned: false,
            package_manager: None,
            launch,
            script_order,
            autostart_scripts,
        }
    }

    /// A copy of this entry.
    pub fn copy(&self) -> (r: StoreEntry)
        ensures
            r@ == self@,
    {
        StoreEntry {
            path: copy_string(&self.path),
            pinned: self.pinned,
            package_manager: copy_opt(&self.package_manager),
            launch: copy_launches(&self.launch),
            script_order: copy_strings(&self.script_order),
            autostart_scripts: copy_strings(&self.autostart_scripts),
        }
    }
}

/// A freshly added project folder.
pub open spec fn new_entry(path: Seq<char>) -> StoreEntryView {
    StoreEntryView {
        path,
        pinned: false,
        package_manager: None,
        launch: Seq::empty(),
        script_order: Seq::empty(),
        autostart_scripts: Seq::empty(),
    }
}

// ---------------------------------------------------------------------------
// Project ids.
// ---------------------------------------------------------------------------

/// What `std`'s `DefaultHasher` (SipHash with fixed keys) computes for a
/// path string.
pub uninterp spec fn path_hash(path: Seq<char>) -> u64;

/// Hashes `path` with a fresh `std::collections::hash_map::DefaultHasher`
/// (`Hash::hash` of the `str`, then `Hasher::finish`). Claimed: the result
/// is [`path_hash`] of the path, that is, a fresh hasher gives the same
/// path the same hash. std documents the algorithm as unspecified across
/// Rust releases, so ids are stable within one build of the app.
#[verifier::external_body]
fn hash_path(path: &str) -> (r: u64)
    ensures
        r == path_hash(path@),
{
    let mut h = std::collections::hash_map::DefaultHasher::new();
    std::hash::Hash::hash(path, &mut h);
    std::hash::Hasher::finish(&h)
}

/// The id of the project at `path`: its path hash in lower-case hex.
pub open spec fn id_of(path: Seq<char>) -> Seq<char> {
    text::hex(path_hash(path) as nat)
}

/// The stable id of the project folder `path`.
pub fn project_id(path: &str) -> (r: String)
    ensures
        r@ == id_of(path@),
{
    let h = hash_path(path);
    let mut v: Vec<char> = Vec::new();
    push_hex(&mut v, h);
    string_of(v.as_slice())
}

/// Whether a stored project has the id `id`.
pub open spec fn has_id(e: StoreEntryView, id: Seq<char>) -> bool {
    id_of(e.path) == id
}

/// Whether `e` is the project with id `id`.
pub fn entry_has_id(e: &StoreEntry, id: &str) -> (r: bool)
    ensures
        r == has_id(e@, id@),
{
    let pid = project_id(e.path.as_str());
    str_eq(pid.as_str(), id)
}


// ---------------------------------------------------------------------------
// Edits to the project list.
// ---------------------------------------------------------------------------

/// The entry with its pin flipped.
pub open spec fn flip_pin(e: StoreEntryView) -> StoreEntryView {
    StoreEntryView { pinned: !e.pinned, ..e }
}

/// Each entry of `es` with id `id` passed through `f`, the others kept.
pub open spec fn update_matching(
    es: Seq<StoreEntryView>,
    id: Seq<char>,
    f: spec_fn(StoreEntryView) -> StoreEntryView,
) -> Seq<StoreEntryView> {
    es.map_values(
        |e: StoreEntryView|
            if has_id(e, id) {
                f(e)
            } else {
                e
            },
    )
}

/// Pins the project with id `id`, or unpins it when it was pinned.
pub fn toggle_pin(entries: &mut Vec<StoreEntry>, id: &str)
    ensures
        entries_view(final(entries)@) == update_matching(
            entries_view(old(entries)@),
            id@,
            |e: StoreEntryView| flip_pin(e),
        ),
{
    let ghost start = entries_view(entries@);
    let ghost goal = update_matching(start, id@, |e: StoreEntryView| flip_pin(e));
    let mut i: usize = 0;
    while i < entries.len()
        invariant
            i <= entries@.len() == start.len(),
            start == entries_view(old(entries)@),
            goal == update_matching(start, id@, |e: StoreEntryView| flip_pin(e)),
            forall|j: int| 0 <= j < i ==> #[trigger] entries_view(entries@)[j] == goal[j],
            forall|j: int| i <= j < start.len() ==> #[trigger] entries_view(entries@)[j] == start[j],
        decreases entries.len() - i,
    {
        let ghost before = entries@;
        assert(entries_view(before)[i as int] == before[i as int]@);
        if entry_has_id(&entries[i], id) {
            let p = entries[i].pinned;
            entries[i].pinned = !p;
            assert(entries@[i as int]@ == flip_pin(before[i as int]@));
        }
        assert(entries@.len() == before.len());
        assert forall|j: int| 0 <= j < entries@.len() && j != i implies #[trigger] entries_view(
            entries@,
        )[j] == entries_view(before)[j] by {
            assert(entries@[j] == before[j]);
        }
        assert(entries_view(entries@)[i as int] == goal[i as int]);
        i = i + 1;
    }
    assert(entries_view(entries@) =~= goal);
}


/// The entry with the script order `order`.
pub open spec fn with_script_order(e: StoreEntryView, order: Seq<Seq<char>>) -> StoreEntryView {
    StoreEntryView { script_order: order, ..e }
}

/// Saves the order in which the project with id `id` lists its scripts.
/// Names of scripts the project lacks are kept; they are left out when
/// the project is read.
pub fn set_script_order(entries: &mut Vec<StoreEntry>, id: &str, scripts: &Vec<String>)
    ensures
        entries_view(final(entries)@) == update_matching(
            entries_view(old(entries)@),
            id@,
            |e: StoreEntryView| with_script_order(e, views(scripts@)),
        ),
{
    let ghost start = entries_view(entries@);
    let ghost goal = update_matching(
        start,
        id@,
        |e: StoreEntryView| with_script_order(e, views(scripts@)),
    );
    let mut i: usize = 0;
    while i < entries.len()
        invariant
            i <= entries@.len() == start.len(),
            start == entries_view(old(entries)@),
            goal == update_matching(
                start,
                id@,
                |e: StoreEntryView| with_script_order(e, views(scripts@)),
            ),
            forall|j: int| 0 <= j < i ==> #[trigger] entries_view(entries@)[j] == goal[j],
            forall|j: int| i <= j < start.len() ==> #[trigger] entries_view(entries@)[j] == start[j],
        decreases entries.len() - i,
    {
        let ghost before = entries@;
        assert(entries_view(before)[i as int] == before[i as int]@);
        if entry_has_id(&entries[i], id) {
            entries[i].script_order = copy_strings(scripts);
            assert(entries@[i as int]@ == with_script_order(before[i as int]@, views(scripts@)));
        }
        assert forall|j: int| 0 <= j < entries@.len() && j != i implies #[trigger] entries_view(
            entries@,
        )[j] == entries_view(before)[j] by {
            assert(entries@[j] == before[j]);
        }
        assert(entries_view(entries@)[i as int] == goal[i as int]);
        i = i + 1;
    }
    assert(entries_view(entries@) =~= goal);
}

/// `v` without the strings equal to `s`.
pub fn without(v: &Vec<String>, s: &str) -> (r: Vec<String>)
    ensures
        views(r@) == views(v@).filter(|x: Seq<char>| x != s@),
{
    let mut out: Vec<String> = Vec::new();
    let mut i: usize = 0;
    while i < v.len()
        invariant
            i <= v@.len(),
            views(out@) == views(v@).take(i as int).filter(|x: Seq<char>| x != s@),
        decreases v.len() - i,
    {
        proof {
            reveal(Seq::filter);
            assert(views(v@).take(i + 1).drop_last() == views(v@).take(i as int));
        }
        if !str_eq(v[i].as_str(), s) {
            let ghost before = out@;
            out.push(v[i].clone());
            assert(views(out@) == views(before).push(v@[i as int]@));
        }
        i = i + 1;
    }
    assert(views(v@).take(i as int) == views(v@));
    out
}

/// The autostart list after turning autostart of `script` on or off:
/// on adds it once, off removes it.
pub open spec fn autostart_after(list: Seq<Seq<char>>, script: Seq<char>, enabled: bool) -> Seq<
    Seq<char>,
> {
    if enabled {
        if list.contains(script) {
            list
        } else {
            list.push(script)
        }
    } else {
        list.filter(|x: Seq<char>| x != script)
    }
}

/// The entry with autostart of `script` turned on or off.
pub open spec fn with_autostart(e: StoreEntryView, script: Seq<char>, enabled: bool) -> StoreEntryView {
    StoreEntryView { autostart_scripts: autostart_after(e.autostart_scripts, script, enabled), ..e }
}

/// Turns starting `script` together with the app on or off for the
/// project with id `id`.
pub fn set_script_autostart(entries: &mut Vec<StoreEntry>, id: &str, script: &str, enabled: bool)
    ensures
        entries_view(final(entries)@) == update_matching(
            entries_view(old(entries)@),
            id@,
            |e: StoreEntryView| with_autostart(e, script@, enabled),
        ),
{
    let ghost start = entries_view(entries@);
    let ghost goal = update_matching(
        start,
        id@,
        |e: StoreEntryView| with_autostart(e, script@, enabled),
    );
    let mut i: usize = 0;
    while i < entries.len()
        invariant
            i <= entries@.len() == start.len(),
            start == entries_view(old(entries)@),
            goal == update_matching(
                start,
                id@,
                |e: StoreEntryView| with_autostart(e, script@, enabled),
            ),
            forall|j: int| 0 <= j < i ==> #[trigger] entries_view(entries@)[j] == goal[j],
            forall|j: int| i <= j < start.len() ==> #[trigger] entries_view(entries@)[j] == start[j],
        decreases entries.len() - i,
    {
        let ghost before = entries@;
        assert(entries_view(before)[i as int] == before[i as int]@);
        if entry_has_id(&entries[i], id) {
            if enabled {
                if !contains_string(&entries[i].autostart_scripts, script) {
                    let name = string_of(chars_of(script).as_slice());
                    entries[i].autostart_scripts.push(name);
                    assert(views(entries@[i as int].autostart_scripts@) == views(
                        before[i as int].autostart_scripts@,
                    ).push(script@));
                }
            } else {
                let kept = without(&entries[i].autostart_scripts, script);
                entries[i].autostart_scripts = kept;
            }
            assert(entries@[i as int]@ == with_autostart(before[i as int]@, script@, enabled));
        }
        assert forall|j: int| 0 <= j < entries@.len() && j != i implies #[trigger] entries_view(
            entries@,
        )[j] == entries_view(before)[j] by {
            assert(entries@[j] == before[j]);
        }
        assert(entries_view(entries@)[i as int] == goal[i as int]);
        i = i + 1;
    }
    assert(entries_view(entries@) =~= goal);
}


// ---------------------------------------------------------------------------
// Package managers.
// ---------------------------------------------------------------------------

/// The package managers Package Run knows how to drive.
pub open spec fn known_pm(name: Seq<char>) -> bool {
    name == "pnpm"@ || name == "yarn"@ || name == "bun"@ || name == "npm"@
}

/// The package managers Package Run knows, in the order they are probed.
pub fn known_pms() -> (r: Vec<String>)
    ensures
        views(r@) == seq!["pnpm"@, "yarn"@, "bun"@, "npm"@],
{
    let mut v: Vec<String> = Vec::new();
    v.push(string_of(chars_of("pnpm").as_slice()));
    v.push(string_of(chars_of("yarn").as_slice()));
    v.push(string_of(chars_of("bun").as_slice()));
    v.push(string_of(chars_of("npm").as_slice()));
    assert(views(v@) == seq!["pnpm"@, "yarn"@, "bun"@, "npm"@]);
    v
}

/// The names among `names` whose flag in `keep` is set, in their order.
pub open spec fn kept_names(names: Seq<Seq<char>>, keep: Seq<bool>) -> Seq<Seq<char>>
    decreases names.len(),
{
    if names.len() == 0 || keep.len() == 0 {
        Seq::empty()
    } else {
        let rest = kept_names(names.drop_last(), keep.drop_last());
        if keep.last() {
            rest.push(names.last())
        } else {
            rest
        }
    }
}

/// The package managers found installed, from the outcome of probing each
/// known one (`pnpm`, `yarn`, `bun`, `npm`, in that order): those whose
/// probe succeeded, in that order.
pub fn installed_from_probes(probes: &Vec<bool>) -> (r: Vec<String>)
    requires
        probes@.len() == 4,
    ensures
        views(r@) == kept_names(seq!["pnpm"@, "yarn"@, "bun"@, "npm"@], probes@),
{
    let names = known_pms();
    let ghost all = seq!["pnpm"@, "yarn"@, "bun"@, "npm"@];
    assert(names@.len() == views(names@).len());
    let mut out: Vec<String> = Vec::new();
    let mut i: usize = 0;
    while i < 4
        invariant
            i <= 4,
            probes@.len() == 4,
            all == seq!["pnpm"@, "yarn"@, "bun"@, "npm"@],
            names@.len() == 4,
            views(names@) == all,
            views(out@) == kept_names(all.take(i as int), probes@.take(i as int)),
        decreases 4 - i,
    {
        assert(all.take(i + 1).drop_last() == all.take(i as int));
        assert(probes@.take(i + 1).drop_last() == probes@.take(i as int));
        assert(views(names@)[i as int] == names@[i as int]@);
        if probes[i] {
            let ghost before = out@;
            out.push(names[i].clone());
            assert(views(out@) =~= views(before).push(names@[i as int]@));
        }
        i = i + 1;
    }
    assert(all.take(4) == all);
    assert(probes@.take(4) == probes@);
    out
}

/// Whether `name` is a package manager Package Run knows.
pub fn is_known_pm(name: &str) -> (r: bool)
    ensures
        r == known_pm(name@),
{
    str_eq(name, "pnpm") || str_eq(name, "yarn") || str_eq(name, "bun") || str_eq(name, "npm")
}

/// The entry with the package manager override `pm`.
pub open spec fn with_pm(e: StoreEntryView, pm: Option<Seq<char>>) -> StoreEntryView {
    StoreEntryView { package_manager: pm, ..e }
}

/// Pins the project with id `id` to the package manager `pm`, or with
/// `None` returns it to detection. A name Package Run does not know is
/// refused and changes nothing.
pub fn set_package_manager(entries: &mut Vec<StoreEntry>, id: &str, pm: &Option<String>) -> (r:
    Result<(), String>)
    ensures
        r is Err <==> (pm matches Some(p) && !known_pm(p@)),
        r matches Err(e) ==> e@ == "unknown package manager: "@ + pm.unwrap()@,
        r is Err ==> final(entries)@ == old(entries)@,
        r is Ok ==> entries_view(final(entries)@) == update_matching(
            entries_view(old(entries)@),
            id@,
            |e: StoreEntryView| with_pm(e, opt_view(*pm)),
        ),
{
    if let Some(p) = pm {
        if !is_known_pm(p.as_str()) {
            let mut v: Vec<char> = Vec::new();
            push_str(&mut v, "unknown package manager: ");
            push_str(&mut v, p.as_str());
            return Err(string_of(v.as_slice()));
        }
    }
    let ghost start = entries_view(entries@);
    let ghost goal = update_matching(start, id@, |e: StoreEntryView| with_pm(e, opt_view(*pm)));
    let mut i: usize = 0;
    while i < entries.len()
        invariant
            i <= entries@.len() == start.len(),
            start == entries_view(old(entries)@),
            goal == update_matching(start, id@, |e: StoreEntryView| with_pm(e, opt_view(*pm))),
            forall|j: int| 0 <= j < i ==> #[trigger] entries_view(entries@)[j] == goal[j],
            forall|j: int| i <= j < start.len() ==> #[trigger] entries_view(entries@)[j] == start[j],
        decreases entries.len() - i,
    {
        let ghost before = entries@;
        assert(entries_view(before)[i as int] == before[i as int]@);
        if entry_has_id(&entries[i], id) {
            entries[i].package_manager = copy_opt(pm);
            assert(entries@[i as int]@ == with_pm(before[i as int]@, opt_view(*pm)));
        }
        assert forall|j: int| 0 <= j < entries@.len() && j != i implies #[trigger] entries_view(
            entries@,
        )[j] == entries_view(before)[j] by {
            assert(entries@[j] == before[j]);
        }
        assert(entries_view(entries@)[i as int] == goal[i as int]);
        i = i + 1;
    }
    assert(entries_view(entries@) =~= goal);
    Ok(())
}

// ---------------------------------------------------------------------------
// Launch configurations.
// ---------------------------------------------------------------------------

/// A launch list without the configurations of `script`.
pub open spec fn drop_script(l: LaunchList, script: Seq<char>) -> LaunchList {
    l.filter(|p: (Seq<char>, LaunchConfigView)| p.0 != script)
}

/// `v` without the configuration of `script`.
pub fn without_script(v: &Vec<(String, LaunchConfig)>, script: &str) -> (r: Vec<(String, LaunchConfig)>)
    ensures
        launches_view(r@) == drop_script(launches_view(v@), script@),
{
    let mut out: Vec<(String, LaunchConfig)> = Vec::new();
    let mut i: usize = 0;
    while i < v.len()
        invariant
            i <= v@.len(),
            launches_view(out@) == launches_view(v@).take(i as int).filter(
                |p: (Seq<char>, LaunchConfigView)| p.0 != script@,
            ),
        decreases v.len() - i,
    {
        proof {
            reveal(Seq::filter);
            assert(launches_view(v@).take(i + 1).drop_last() == launches_view(v@).take(i as int));
        }
        if !str_eq(v[i].0.as_str(), script) {
            let ghost before = out@;
            out.push((v[i].0.clone(), v[i].1.copy()));
            assert(launches_view(out@) == launches_view(before).push(
                (v@[i as int].0@, v@[i as int].1@),
            ));
        }
        i = i + 1;
    }
    assert(launches_view(v@).take(i as int) == launches_view(v@));
    out
}

/// The launch list after setting the configuration of `script` to `cfg`:
/// its old configuration goes, and a configuration that changes something
/// takes its place at the end.
pub open spec fn launches_after(
    l: LaunchList,
    script: Seq<char>,
    cfg: Option<LaunchConfigView>,
) -> LaunchList {
    let rest = drop_script(l, script);
    match cfg {
        Some(c) => if launch_is_empty(c) {
            rest
        } else {
            rest.push((script, c))
        },
        None => rest,
    }
}

/// The entry with the launch configuration of `script` set to `cfg`.
pub open spec fn with_launch(
    e: StoreEntryView,
    script: Seq<char>,
    cfg: Option<LaunchConfigView>,
) -> StoreEntryView {
    StoreEntryView { launch: launches_after(e.launch, script, cfg), ..e }
}

/// Sets how `script` of the project with id `id` is launched; `None`, or
/// a configuration that changes nothing, clears it.
pub fn set_launch_config(
    entries: &mut Vec<StoreEntry>,
    id: &str,
    script: &str,
    config: &Option<LaunchConfig>,
)
    ensures
        entries_view(final(entries)@) == update_matching(
            entries_view(old(entries)@),
            id@,
            |e: StoreEntryView| with_launch(e, script@, launch_view(*config)),
        ),
        store_wf(entries_view(old(entries)@)) && (launch_view(*config) matches Some(c)
            ==> text::keys_unique(c.env)) ==> store_wf(entries_view(final(entries)@)),
{
    let ghost start = entries_view(entries@);
    let ghost goal = update_matching(
        start,
        id@,
        |e: StoreEntryView| with_launch(e, script@, launch_view(*config)),
    );
    let mut i: usize = 0;
    while i < entries.len()
        invariant
            i <= entries@.len() == start.len(),
            start == entries_view(old(entries)@),
            goal == update_matching(
                start,
                id@,
                |e: StoreEntryView| with_launch(e, script@, launch_view(*config)),
            ),
            forall|j: int| 0 <= j < i ==> #[trigger] entries_view(entries@)[j] == goal[j],
            forall|j: int| i <= j < start.len() ==> #[trigger] entries_view(entries@)[j] == start[j],
        decreases entries.len() - i,
    {
        let ghost before = entries@;
        assert(entries_view(before)[i as int] == before[i as int]@);
        if entry_has_id(&entries[i], id) {
            let mut l = without_script(&entries[i].launch, script);
            match config {
                Some(c) => {
                    if !c.is_empty() {
                        let ghost lb = l@;
                        l.push((string_of(chars_of(script).as_slice()), c.copy()));
                        assert(launches_view(l@) == launches_view(lb).push((script@, c@)));
                    }
                },
                None => {},
            }
            entries[i].launch = l;
            assert(entries@[i as int]@ == with_launch(before[i as int]@, script@, launch_view(*config)));
        }
        assert forall|j: int| 0 <= j < entries@.len() && j != i implies #[trigger] entries_view(
            entries@,
        )[j] == entries_view(before)[j] by {
            assert(entries@[j] == before[j]);
        }
        assert(entries_view(entries@)[i as int] == goal[i as int]);
        i = i + 1;
    }
    assert(entries_view(entries@) =~= goal);
    proof {
        if store_wf(start) && (launch_view(*config) matches Some(c) ==> text::keys_unique(c.env)) {
            lemma_store_stays_well_formed(
                start,
                id@,
                id@,
                Seq::empty(),
                Seq::empty(),
                script@,
                false,
                None,
                launch_view(*config),
            );
        }
    }
}

/// The configuration of `script` in a launch list: its last entry.
pub open spec fn config_in(l: LaunchList, script: Seq<char>) -> Option<LaunchConfigView>
    decreases l.len(),
{
    if l.len() == 0 {
        None
    } else if l.last().0 == script {
        Some(l.last().1)
    } else {
        config_in(l.drop_last(), script)
    }
}

/// The index of the first entry with id `id`.
pub open spec fn first_with_id(es: Seq<StoreEntryView>, id: Seq<char>) -> Option<int>
    decreases es.len(),
{
    if es.len() == 0 {
        None
    } else if has_id(es[0], id) {
        Some(0)
    } else {
        match first_with_id(es.drop_first(), id) {
            Some(k) => Some(k + 1),
            None => None,
        }
    }
}

/// How `script` of the project with id `id` is launched: the
/// configuration stored with the first project of that id, if any.
pub open spec fn stored_config(
    es: Seq<StoreEntryView>,
    id: Seq<char>,
    script: Seq<char>,
) -> Option<LaunchConfigView> {
    match first_with_id(es, id) {
        Some(k) => config_in(es[k].launch, script),
        None => None,
    }
}

/// The launch configuration stored for `script` of the project `id`.
pub fn launch_config_for(entries: &Vec<StoreEntry>, id: &str, script: &str) -> (r: Option<LaunchConfig>)
    ensures
        launch_view(r) == stored_config(entries_view(entries@), id@, script@),
{
    let ghost es = entries_view(entries@);
    let mut i: usize = 0;
    assert(es.skip(0) == es);
    while i < entries.len()
        invariant
            i <= entries@.len(),
            es == entries_view(entries@),
            first_with_id(es, id@) == match first_with_id(es.skip(i as int), id@) {
                Some(k) => Some(k + i),
                None => None,
            },
        decreases entries.len() - i,
    {
        assert(es.skip(i as int)[0] == es[i as int]);
        assert(es.skip(i as int).drop_first() == es.skip(i + 1));
        if entry_has_id(&entries[i], id) {
            let l = &entries[i].launch;
            let ghost lv = launches_view(l@);
            assert(es[i as int] == entries@[i as int]@);
            assert(es[i as int].launch == lv);
            assert(first_with_id(es, id@) == Some(i as int));
            let mut j = l.len();
            assert(lv.take(j as int) == lv);
            assert(stored_config(es, id@, script@) == config_in(lv, script@));
            while j > 0
                invariant
                    j <= l@.len(),
                    stored_config(es, id@, script@) == config_in(lv, script@),
                    es == entries_view(entries@),
                    lv == launches_view(l@),
                    config_in(lv, script@) == config_in(lv.take(j as int), script@),
                decreases j,
            {
                assert(lv.take(j as int).last() == lv[j - 1]);
                assert(lv.take(j as int).drop_last() == lv.take(j - 1));
                assert(lv[j - 1] == (l@[j - 1].0@, l@[j - 1].1@));
                if str_eq(l[j - 1].0.as_str(), script) {
                    return Some(l[j - 1].1.copy());
                }
                j = j - 1;
            }
            return None;
        }
        i = i + 1;
    }
    None
}


// ---------------------------------------------------------------------------
// Adding, removing and ordering projects.
// ---------------------------------------------------------------------------

/// The list without the projects with id `id`.
pub open spec fn without_id(es: Seq<StoreEntryView>, id: Seq<char>) -> Seq<StoreEntryView> {
    es.filter(|e: StoreEntryView| !has_id(e, id))
}

/// The project list without the project with id `id`.
pub fn remove_project(entries: &Vec<StoreEntry>, id: &str) -> (r: Vec<StoreEntry>)
    ensures
        entries_view(r@) == without_id(entries_view(entries@), id@),
{
    let ghost es = entries_view(entries@);
    let mut out: Vec<StoreEntry> = Vec::new();
    let mut i: usize = 0;
    while i < entries.len()
        invariant
            i <= entries@.len(),
            es == entries_view(entries@),
            entries_view(out@) == es.take(i as int).filter(|e: StoreEntryView| !has_id(e, id@)),
        decreases entries.len() - i,
    {
        proof {
            reveal(Seq::filter);
            assert(es.take(i + 1).drop_last() == es.take(i as int));
            assert(es.take(i + 1).last() == entries@[i as int]@);
        }
        if !entry_has_id(&entries[i], id) {
            let ghost before = out@;
            out.push(entries[i].copy());
            assert(entries_view(out@) == entries_view(before).push(entries@[i as int]@));
        }
        i = i + 1;
    }
    assert(es.take(i as int) == es);
    out
}

/// The index of the first entry for the folder `path`.
pub open spec fn first_with_path(es: Seq<StoreEntryView>, path: Seq<char>) -> Option<int>
    decreases es.len(),
{
    if es.len() == 0 {
        None
    } else if es[0].path == path {
        Some(0)
    } else {
        match first_with_path(es.drop_first(), path) {
            Some(k) => Some(k + 1),
            None => None,
        }
    }
}

/// The list after adding the folder `path`: unchanged when it is listed.
pub open spec fn list_with(es: Seq<StoreEntryView>, path: Seq<char>) -> Seq<StoreEntryView> {
    if first_with_path(es, path) is Some {
        es
    } else {
        es.push(new_entry(path))
    }
}

/// A listed folder is found, and is where it was found.
proof fn lemma_first_with_path(es: Seq<StoreEntryView>, path: Seq<char>)
    ensures
        first_with_path(es, path) matches Some(k) ==> 0 <= k < es.len() && es[k].path == path,
        first_with_path(es, path) is None ==> forall|j: int| 0 <= j < es.len() ==> es[j].path != path,
    decreases es.len(),
{
    if es.len() > 0 && es[0].path != path {
        lemma_first_with_path(es.drop_first(), path);
        assert forall|j: int| 0 < j < es.len() implies es[j] == es.drop_first()[j - 1] by {}
    }
}

/// A folder not yet listed is found where it is appended.
proof fn lemma_first_with_path_push(es: Seq<StoreEntryView>, x: StoreEntryView, path: Seq<char>)
    requires
        forall|j: int| 0 <= j < es.len() ==> es[j].path != path,
        x.path == path,
    ensures
        first_with_path(es.push(x), path) == Some(es.len() as int),
    decreases es.len(),
{
    if es.len() > 0 {
        assert(es.push(x).drop_first() == es.drop_first().push(x));
        assert forall|j: int| 0 <= j < es.drop_first().len() implies es.drop_first()[j].path != path by {
            assert(es.drop_first()[j] == es[j + 1]);
        }
        lemma_first_with_path_push(es.drop_first(), x, path);
    } else {
        assert(es.push(x)[0] == x);
    }
}

/// Adds the folder `path` to the list unless it is already there, and
/// returns its entry. A folder without a `package.json` is refused.
pub fn add_project_entry(entries: &mut Vec<StoreEntry>, path: &str, has_package_json: bool) -> (r:
    Result<StoreEntry, String>)
    ensures
        r is Err <==> !has_package_json,
        r matches Err(e) ==> e@ == "ERR_NO_PACKAGE_JSON"@,
        r is Err ==> final(entries)@ == old(entries)@,
        r is Ok ==> entries_view(final(entries)@) == list_with(entries_view(old(entries)@), path@),
        r matches Ok(e) ==> e@ == entries_view(final(entries)@)[first_with_path(
            entries_view(final(entries)@),
            path@,
        ).unwrap()],
{
    if !has_package_json {
        return Err(string_of(chars_of("ERR_NO_PACKAGE_JSON").as_slice()));
    }
    let ghost es = entries_view(entries@);
    let mut i: usize = 0;
    assert(es.skip(0) == es);
    while i < entries.len()
        invariant
            i <= entries@.len(),
            has_package_json,
            es == entries_view(entries@),
            first_with_path(es, path@) == match first_with_path(es.skip(i as int), path@) {
                Some(k) => Some(k + i),
                None => None,
            },
        decreases entries.len() - i,
    {
        assert(es.skip(i as int)[0] == es[i as int]);
        assert(es.skip(i as int).drop_first() == es.skip(i + 1));
        assert(es[i as int] == entries@[i as int]@);
        if str_eq(entries[i].path.as_str(), path) {
            return Ok(entries[i].copy());
        }
        i = i + 1;
    }
    assert(es.skip(i as int).len() == 0);
    let e = StoreEntry::new(path);
    let r = e.copy();
    let ghost before = entries@;
    entries.push(e);
    assert(entries_view(entries@) == es.push(new_entry(path@)));
    proof {
        lemma_first_with_path(es, path@);
        lemma_first_with_path_push(es, new_entry(path@), path@);
    }
    Ok(r)
}

/// Where `x` first stands in `ids`, or `ids.len()` when it is not there.
pub open spec fn position(ids: Seq<Seq<char>>, x: Seq<char>) -> nat
    decreases ids.len(),
{
    if ids.len() == 0 {
        0
    } else if ids[0] == x {
        0
    } else {
        1 + position(ids.drop_first(), x)
    }
}

/// The place a project takes in a manual order: where `ids` names it,
/// after all named ones when it is not named.
pub open spec fn rank(e: StoreEntryView, ids: Seq<Seq<char>>) -> nat {
    position(ids, id_of(e.path))
}

/// The entries of rank `r` and above, by rank and, within a rank, in
/// their old order.
pub open spec fn ordered_from(
    es: Seq<StoreEntryView>,
    ids: Seq<Seq<char>>,
    r: nat,
) -> Seq<StoreEntryView>
    decreases ids.len() + 1 - r,
{
    if r > ids.len() {
        Seq::empty()
    } else {
        es.filter(|e: StoreEntryView| rank(e, ids) == r) + ordered_from(es, ids, r + 1)
    }
}

/// The list in the manual order `ids`: projects in the order `ids` names
/// them, then those it does not name, in their old order (a stable sort
/// by position in `ids`).
pub open spec fn ordered_by_ids(es: Seq<StoreEntryView>, ids: Seq<Seq<char>>) -> Seq<StoreEntryView> {
    ordered_from(es, ids, 0)
}

/// Where the string `x` first stands in `ids`, or `ids.len()`.
fn position_in(ids: &Vec<String>, x: &str) -> (r: usize)
    ensures
        r == position(views(ids@), x@),
{
    let ghost v = views(ids@);
    let mut i: usize = 0;
    assert(v.skip(0) == v);
    while i < ids.len()
        invariant
            i <= ids@.len(),
            v == views(ids@),
            position(v, x@) == i + position(v.skip(i as int), x@),
        decreases ids.len() - i,
    {
        assert(v.skip(i as int)[0] == ids@[i as int]@);
        assert(v.skip(i as int).drop_first() == v.skip(i + 1));
        if str_eq(ids[i].as_str(), x) {
            return i;
        }
        i = i + 1;
    }
    i
}

/// Puts the project list in the order the user dragged it into: `ids` is
/// the desired order of project ids; projects it does not mention keep
/// their relative order at the end.
pub fn order_by_ids(entries: &Vec<StoreEntry>, ids: &Vec<String>) -> (r: Vec<StoreEntry>)
    ensures
        entries_view(r@) == ordered_by_ids(entries_view(entries@), views(ids@)),
{
    let ghost es = entries_view(entries@);
    let ghost vids = views(ids@);
    let n = entries.len();
    let m = ids.len();
    let mut ranks: Vec<usize> = Vec::new();
    let mut i: usize = 0;
    while i < n
        invariant
            i <= n == entries@.len(),
            es == entries_view(entries@),
            vids == views(ids@),
            ranks@.len() == i,
            forall|j: int| 0 <= j < i ==> #[trigger] ranks@[j] == rank(es[j], vids),
        decreases n - i,
    {
        let pid = project_id(entries[i].path.as_str());
        let p = position_in(ids, pid.as_str());
        assert(es[i as int] == entries@[i as int]@);
        ranks.push(p);
        i = i + 1;
    }
    let mut out: Vec<StoreEntry> = Vec::new();
    let mut r: usize = 0;
    assert(entries_view(out@) == Seq::<StoreEntryView>::empty());
    assert(Seq::<StoreEntryView>::empty() + ordered_from(es, vids, 0) == ordered_from(es, vids, 0));
    while r < m
        invariant
            n == entries@.len() == ranks@.len(),
            m == ids@.len(),
            r <= m,
            es == entries_view(entries@),
            vids == views(ids@),
            forall|j: int| 0 <= j < n ==> #[trigger] ranks@[j] == rank(es[j], vids),
            entries_view(out@) + ordered_from(es, vids, r as nat) == ordered_from(es, vids, 0),
        decreases m - r,
    {
        push_rank(entries, &ranks, ids, r, &mut out);
        r = r + 1;
    }
    push_rank(entries, &ranks, ids, m, &mut out);
    assert(ordered_from(es, vids, (m + 1) as nat) == Seq::<StoreEntryView>::empty());
    assert(entries_view(out@) + Seq::<StoreEntryView>::empty() == entries_view(out@));
    out
}

/// Appends copies of the entries of rank `r`, in order, given the ranks
/// of all entries; the rest of the ordering then starts at rank `r + 1`.
fn push_rank(
    entries: &Vec<StoreEntry>,
    ranks: &Vec<usize>,
    ids: &Vec<String>,
    r: usize,
    out: &mut Vec<StoreEntry>,
)
    requires
        ranks@.len() == entries@.len(),
        r <= ids@.len(),
        forall|j: int|
            0 <= j < entries@.len() ==> #[trigger] ranks@[j] == rank(
                entries_view(entries@)[j],
                views(ids@),
            ),
    ensures
        entries_view(final(out)@) + ordered_from(entries_view(entries@), views(ids@), (r + 1) as nat)
            == entries_view(old(out)@) + ordered_from(entries_view(entries@), views(ids@), r as nat),
{
    let ghost es = entries_view(entries@);
    let ghost base = entries_view(out@);
    let ghost pred = |e: StoreEntryView| rank(e, views(ids@)) == r;
    let n = entries.len();
    let mut k: usize = 0;
    while k < n
        invariant
            k <= n == entries@.len() == ranks@.len(),
            es == entries_view(entries@),
            pred == |e: StoreEntryView| rank(e, views(ids@)) == r,
            forall|j: int| 0 <= j < n ==> #[trigger] ranks@[j] == rank(es[j], views(ids@)),
            entries_view(out@) == base + es.take(k as int).filter(pred),
        decreases n - k,
    {
        proof {
            reveal(Seq::filter);
            assert(es.take(k + 1).drop_last() == es.take(k as int));
            assert(es.take(k + 1).last() == es[k as int]);
            assert(es[k as int] == entries@[k as int]@);
        }
        if ranks[k] == r {
            let ghost before = out@;
            out.push(entries[k].copy());
            assert(entries_view(out@) == entries_view(before).push(entries@[k as int]@));
            assert(base + es.take(k + 1).filter(pred) == (base + es.take(k as int).filter(
                pred,
            )).push(es[k as int]));
        }
        k = k + 1;
    }
    assert(es.take(n as int) == es);
    let ghost next = ordered_from(es, views(ids@), (r + 1) as nat);
    assert(ordered_from(es, views(ids@), r as nat) == es.filter(pred) + next);
    assert(base + ordered_from(es, views(ids@), r as nat) == (base + es.filter(pred)) + next);
}


// ---------------------------------------------------------------------------
// Laws of the project list.
// ---------------------------------------------------------------------------

/// Pinning a project twice leaves the list as it was.
pub proof fn lemma_toggle_pin_twice(es: Seq<StoreEntryView>, id: Seq<char>)
    ensures
        update_matching(
            update_matching(es, id, |e: StoreEntryView| flip_pin(e)),
            id,
            |e: StoreEntryView| flip_pin(e),
        ) == es,
{
    let once = update_matching(es, id, |e: StoreEntryView| flip_pin(e));
    let twice = update_matching(once, id, |e: StoreEntryView| flip_pin(e));
    assert forall|j: int| 0 <= j < es.len() implies twice[j] == es[j] by {
        assert(once[j] == if has_id(es[j], id) { flip_pin(es[j]) } else { es[j] });
    }
    assert(twice =~= es);
}

/// Editing the entries of one id keeps every entry's path, and so its id.
proof fn lemma_update_keeps_paths(
    es: Seq<StoreEntryView>,
    id: Seq<char>,
    f: spec_fn(StoreEntryView) -> StoreEntryView,
)
    requires
        forall|e: StoreEntryView| #[trigger] f(e).path == e.path,
    ensures
        update_matching(es, id, f).len() == es.len(),
        forall|j: int| 0 <= j < es.len() ==> #[trigger] update_matching(es, id, f)[j].path == es[j].path,
        first_with_id(update_matching(es, id, f), id) == first_with_id(es, id),
    decreases es.len(),
{
    if es.len() > 0 {
        lemma_update_keeps_paths(es.drop_first(), id, f);
        assert(update_matching(es, id, f).drop_first() == update_matching(es.drop_first(), id, f));
    }
}

/// The configuration a launch list holds for `script` after it is set:
/// the new one when it changes something, none otherwise.
proof fn lemma_config_in_after(l: LaunchList, script: Seq<char>, cfg: Option<LaunchConfigView>)
    ensures
        config_in(launches_after(l, script, cfg), script) == match cfg {
            Some(c) => if launch_is_empty(c) {
                None
            } else {
                Some(c)
            },
            None => None,
        },
{
    lemma_config_in_filtered(l, script);
    let rest = drop_script(l, script);
    if let Some(c) = cfg {
        assert(rest.push((script, c)).last() == (script, c));
    }
}

/// Once a script's configurations are filtered out, none is found.
proof fn lemma_config_in_filtered(l: LaunchList, script: Seq<char>)
    ensures
        config_in(drop_script(l, script), script) is None,
    decreases l.len(),
{
    reveal(Seq::filter);
    if l.len() > 0 {
        lemma_config_in_filtered(l.drop_last(), script);
        let f = drop_script(l.drop_last(), script);
        assert(f.push(l.last()).last() == l.last());
        assert(f.push(l.last()).drop_last() == f);
    }
}

/// Reading back a launch configuration gives what was last set for it:
/// a configuration that changes something is found again, and setting
/// `None` or an empty one clears it.
pub proof fn lemma_launch_config_read_back(
    es: Seq<StoreEntryView>,
    id: Seq<char>,
    script: Seq<char>,
    cfg: Option<LaunchConfigView>,
)
    requires
        first_with_id(es, id) is Some,
    ensures
        stored_config(
            update_matching(es, id, |e: StoreEntryView| with_launch(e, script, cfg)),
            id,
            script,
        ) == match cfg {
            Some(c) => if launch_is_empty(c) {
                None
            } else {
                Some(c)
            },
            None => None,
        },
{
    let f = |e: StoreEntryView| with_launch(e, script, cfg);
    lemma_update_keeps_paths(es, id, f);
    lemma_first_with_id(es, id);
    let k = first_with_id(es, id).unwrap();
    let upd = update_matching(es, id, f);
    assert(upd[k] == with_launch(es[k], script, cfg));
    lemma_config_in_after(es[k].launch, script, cfg);
}

/// A configuration that names a port, sets a variable or names an env
/// file is never empty, so saving it stores it and reading it back gives
/// it again; only one with at most blank extra arguments clears.
pub proof fn lemma_configured_launch_is_kept(
    es: Seq<StoreEntryView>,
    id: Seq<char>,
    script: Seq<char>,
    c: LaunchConfigView,
)
    requires
        first_with_id(es, id) is Some,
    ensures
        c.port is Some || c.env.len() > 0 || c.env_file is Some ==> !launch_is_empty(c),
        c.port is Some || c.env.len() > 0 || c.env_file is Some ==> stored_config(
            update_matching(es, id, |e: StoreEntryView| with_launch(e, script, Some(c))),
            id,
            script,
        ) == Some(c),
        c.port is None && c.env.len() == 0 && c.env_file is None && c.extra_args is None
            ==> stored_config(
            update_matching(es, id, |e: StoreEntryView| with_launch(e, script, Some(c))),
            id,
            script,
        ) is None,
{
    lemma_launch_config_read_back(es, id, script, Some(c));
}

/// A project found by id is where it was found and has that id.
proof fn lemma_first_with_id(es: Seq<StoreEntryView>, id: Seq<char>)
    ensures
        first_with_id(es, id) matches Some(k) ==> 0 <= k < es.len() && has_id(es[k], id),
    decreases es.len(),
{
    if es.len() > 0 && !has_id(es[0], id) {
        lemma_first_with_id(es.drop_first(), id);
    }
}

/// After a project is removed, no project with its id is left.
pub proof fn lemma_removed_is_gone(es: Seq<StoreEntryView>, id: Seq<char>)
    ensures
        forall|j: int|
            0 <= j < without_id(es, id).len() ==> !has_id(#[trigger] without_id(es, id)[j], id),
{
    broadcast use vstd::seq_lib::group_filter_ensures;
}

/// Adding a folder a second time changes nothing.
pub proof fn lemma_add_twice(es: Seq<StoreEntryView>, path: Seq<char>)
    ensures
        list_with(list_with(es, path), path) == list_with(es, path),
{
    lemma_first_with_path(es, path);
    if first_with_path(es, path) is None {
        lemma_first_with_path_push(es, new_entry(path), path);
    }
}

/// Turning autostart on lists the script, once; turning it off unlists it.
pub proof fn lemma_autostart(list: Seq<Seq<char>>, script: Seq<char>)
    ensures
        autostart_after(list, script, true).contains(script),
        autostart_after(autostart_after(list, script, true), script, true) == autostart_after(
            list,
            script,
            true,
        ),
        !autostart_after(list, script, false).contains(script),
{
    broadcast use vstd::seq_lib::group_filter_ensures;
    let on = autostart_after(list, script, true);
    if !list.contains(script) {
        assert(on[list.len() as int] == script);
    }
    let off = autostart_after(list, script, false);
    if off.contains(script) {
        let j = choose|j: int| 0 <= j < off.len() && off[j] == script;
        assert(off[j] != script);
    }
}

/// A position is within the list, or just past it.
proof fn lemma_position_bound(ids: Seq<Seq<char>>, x: Seq<char>)
    ensures
        position(ids, x) <= ids.len(),
    decreases ids.len(),
{
    if ids.len() > 0 && ids[0] != x {
        lemma_position_bound(ids.drop_first(), x);
    }
}

/// Splitting a filter in two disjoint parts splits its multiset.
proof fn lemma_filter_split<A>(
    s: Seq<A>,
    p: spec_fn(A) -> bool,
    q: spec_fn(A) -> bool,
    u: spec_fn(A) -> bool,
)
    requires
        forall|a: A| #[trigger] p(a) <==> (q(a) || u(a)),
        forall|a: A| !(#[trigger] q(a) && u(a)),
    ensures
        s.filter(p).to_multiset() == s.filter(q).to_multiset().add(s.filter(u).to_multiset()),
    decreases s.len(),
{
    reveal(Seq::filter);
    broadcast use vstd::seq_lib::group_to_multiset_ensures;
    broadcast use vstd::multiset::group_multiset_axioms;
    if s.len() == 0 {
        assert(s.filter(p).to_multiset() =~= s.filter(q).to_multiset().add(s.filter(u).to_multiset()));
    } else {
        lemma_filter_split(s.drop_last(), p, q, u);
        assert(s.filter(p).to_multiset() =~= s.filter(q).to_multiset().add(s.filter(u).to_multiset()));
    }
}

/// Filtering out nothing keeps the whole sequence.
proof fn lemma_filter_all<A>(s: Seq<A>, p: spec_fn(A) -> bool)
    requires
        forall|a: A| #[trigger] p(a),
    ensures
        s.filter(p) == s,
    decreases s.len(),
{
    reveal(Seq::filter);
    if s.len() > 0 {
        lemma_filter_all(s.drop_last(), p);
        assert(s.drop_last().push(s.last()) == s);
    }
}

/// Filtering with a test nothing passes leaves nothing.
proof fn lemma_filter_none<A>(s: Seq<A>, p: spec_fn(A) -> bool)
    requires
        forall|a: A| !#[trigger] p(a),
    ensures
        s.filter(p) == Seq::<A>::empty(),
    decreases s.len(),
{
    reveal(Seq::filter);
    if s.len() > 0 {
        lemma_filter_none(s.drop_last(), p);
    }
}

/// Whether an entry's rank is at least `r`.
pub open spec fn rank_at_least(e: StoreEntryView, ids: Seq<Seq<char>>, r: nat) -> bool {
    rank(e, ids) >= r
}

/// The ordering from rank `r` holds exactly the entries of rank `r` and above.
proof fn lemma_ordered_from_multiset(es: Seq<StoreEntryView>, ids: Seq<Seq<char>>, r: nat)
    requires
        r <= ids.len() + 1,
    ensures
        ordered_from(es, ids, r).to_multiset() == es.filter(
            |e: StoreEntryView| rank_at_least(e, ids, r),
        ).to_multiset(),
    decreases ids.len() + 1 - r,
{
    broadcast use vstd::seq_lib::group_to_multiset_ensures;
    if r > ids.len() {
        assert forall|e: StoreEntryView| !#[trigger] rank_at_least(e, ids, r) by {
            lemma_position_bound(ids, id_of(e.path));
        }
        lemma_filter_none(es, |e: StoreEntryView| rank_at_least(e, ids, r));
        assert(ordered_from(es, ids, r) == Seq::<StoreEntryView>::empty());
    } else {
        lemma_ordered_from_multiset(es, ids, r + 1);
        lemma_filter_split(
            es,
            |e: StoreEntryView| rank_at_least(e, ids, r),
            |e: StoreEntryView| rank(e, ids) == r,
            |e: StoreEntryView| rank_at_least(e, ids, r + 1),
        );
        vstd::seq_lib::lemma_multiset_commutative(
            es.filter(|e: StoreEntryView| rank(e, ids) == r),
            ordered_from(es, ids, r + 1),
        );
    }
}

/// Reordering by ids neither adds nor drops a project: the result is a
/// permutation of the list.
pub proof fn lemma_order_is_permutation(es: Seq<StoreEntryView>, ids: Seq<Seq<char>>)
    ensures
        ordered_by_ids(es, ids).to_multiset() == es.to_multiset(),
{
    lemma_ordered_from_multiset(es, ids, 0);
    lemma_filter_all(es, |e: StoreEntryView| rank_at_least(e, ids, 0));
}

/// The ordering from rank `r` is sorted by rank, all of rank `r` or above.
proof fn lemma_ordered_from_sorted(es: Seq<StoreEntryView>, ids: Seq<Seq<char>>, r: nat)
    ensures
        forall|i: int|
            0 <= i < ordered_from(es, ids, r).len() ==> rank(#[trigger] ordered_from(es, ids, r)[i], ids)
                >= r,
        forall|i: int, j: int|
            0 <= i < j < ordered_from(es, ids, r).len() ==> rank(
                #[trigger] ordered_from(es, ids, r)[i],
                ids,
            ) <= rank(#[trigger] ordered_from(es, ids, r)[j], ids),
    decreases ids.len() + 1 - r,
{
    broadcast use vstd::seq_lib::group_filter_ensures;
    if r <= ids.len() {
        lemma_ordered_from_sorted(es, ids, r + 1);
        let f = es.filter(|e: StoreEntryView| rank(e, ids) == r);
        let rest = ordered_from(es, ids, r + 1);
        let t = ordered_from(es, ids, r);
        assert(t == f + rest);
        assert forall|i: int| 0 <= i < t.len() implies rank(#[trigger] t[i], ids) >= r by {
            if i < f.len() {
                assert(t[i] == f[i]);
            } else {
                assert(t[i] == rest[i - f.len()]);
            }
        }
        assert forall|i: int, j: int| 0 <= i < j < t.len() implies rank(#[trigger] t[i], ids) <= rank(
            #[trigger] t[j],
            ids,
        ) by {
            if j < f.len() {
                assert(t[i] == f[i]);
                assert(t[j] == f[j]);
            } else if i < f.len() {
                assert(t[i] == f[i]);
                assert(t[j] == rest[j - f.len()]);
            } else {
                assert(t[i] == rest[i - f.len()]);
                assert(t[j] == rest[j - f.len()]);
            }
        }
    }
}

/// A manual order lists projects by their position in `ids`, the ones it
/// does not name last.
pub proof fn lemma_order_follows_ids(es: Seq<StoreEntryView>, ids: Seq<Seq<char>>)
    ensures
        forall|i: int, j: int|
            0 <= i < j < ordered_by_ids(es, ids).len() ==> rank(
                #[trigger] ordered_by_ids(es, ids)[i],
                ids,
            ) <= rank(#[trigger] ordered_by_ids(es, ids)[j], ids),
{
    lemma_ordered_from_sorted(es, ids, 0);
}


// ---------------------------------------------------------------------------
// Reading a project folder.
// ---------------------------------------------------------------------------

/// Which lock files a project folder holds.
#[derive(Clone, Copy, Debug)]
pub struct Lockfiles {
    pub pnpm_lock_yaml: bool,
    pub yarn_lock: bool,
    pub bun_lockb: bool,
    pub bun_lock: bool,
    pub package_lock_json: bool,
}

/// The package manager a lock file points to, pnpm's first, then yarn's,
/// bun's and npm's.
pub open spec fn lockfile_choice(l: Lockfiles) -> Option<Seq<char>> {
    if l.pnpm_lock_yaml {
        Some("pnpm"@)
    } else if l.yarn_lock {
        Some("yarn"@)
    } else if l.bun_lockb || l.bun_lock {
        Some("bun"@)
    } else if l.package_lock_json {
        Some("npm"@)
    } else {
        None
    }
}

/// Each lock file on its own names the package manager it belongs to:
/// `pnpm-lock.yaml` pnpm, `yarn.lock` yarn, `bun.lockb` and `bun.lock`
/// bun, `package-lock.json` npm; no lock file names none. Where several
/// are present, pnpm's wins over yarn's, yarn's over bun's, bun's over
/// npm's.
pub proof fn lemma_each_lockfile_names_its_manager(l: Lockfiles)
    ensures
        l.pnpm_lock_yaml ==> lockfile_choice(l) == Some("pnpm"@),
        !l.pnpm_lock_yaml && l.yarn_lock ==> lockfile_choice(l) == Some("yarn"@),
        !l.pnpm_lock_yaml && !l.yarn_lock && l.bun_lockb ==> lockfile_choice(l) == Some("bun"@),
        !l.pnpm_lock_yaml && !l.yarn_lock && l.bun_lock ==> lockfile_choice(l) == Some("bun"@),
        !l.pnpm_lock_yaml && !l.yarn_lock && !l.bun_lockb && !l.bun_lock && l.package_lock_json
            ==> lockfile_choice(l) == Some("npm"@),
        !l.pnpm_lock_yaml && !l.yarn_lock && !l.bun_lockb && !l.bun_lock && !l.package_lock_json
            ==> lockfile_choice(l) is None,
        l.pnpm_lock_yaml || l.yarn_lock || l.bun_lockb || l.bun_lock || l.package_lock_json
            ==> lockfile_choice(l) is Some,
{
}

/// The package manager that the lock files of a folder point to.
pub fn lockfile_pm(l: &Lockfiles) -> (r: Option<String>)
    ensures
        opt_view(r) == lockfile_choice(*l),
{
    if l.pnpm_lock_yaml {
        Some(string_of(chars_of("pnpm").as_slice()))
    } else if l.yarn_lock {
        Some(string_of(chars_of("yarn").as_slice()))
    } else if l.bun_lockb || l.bun_lock {
        Some(string_of(chars_of("bun").as_slice()))
    } else if l.package_lock_json {
        Some(string_of(chars_of("npm").as_slice()))
    } else {
        None
    }
}

/// The package manager named by a corepack `packageManager` field such
/// as `pnpm@9.1.0`: the part before the first `@`, trimmed, when it is
/// one Package Run knows.
pub open spec fn corepack_choice(field: Option<Seq<char>>) -> Option<Seq<char>> {
    match field {
        None => None,
        Some(f) => {
            let name = text::trim(f.take(text::first_index(f, '@') as int));
            if known_pm(name) {
                Some(name)
            } else {
                None
            }
        },
    }
}

/// `"pnpm@9.1.0"` (a corepack `packageManager` field) to `"pnpm"`.
pub fn corepack_pm(field: Option<&str>) -> (r: Option<String>)
    ensures
        opt_view(r) == corepack_choice(match field {
            Some(f) => Some(f@),
            None => None,
        }),
{
    match field {
        None => None,
        Some(f) => {
            let v = chars_of(f);
            let at = text::find_char(v.as_slice(), 0, v.len(), '@');
            assert(v@.subrange(0, v@.len() as int) == v@);
            assert(v@.take(at as int) == v@.subrange(0, at as int));
            let (a, b) = trim_range(v.as_slice(), 0, at);
            let name = string_of_range(v.as_slice(), a, b);
            if is_known_pm(name.as_str()) {
                Some(name)
            } else {
                None
            }
        },
    }
}

/// The name in a `package.json`, when it is a non-empty string.
pub open spec fn pkg_name(doc: Option<JsonValue>) -> Option<Seq<char>> {
    match doc {
        Some(d) => match json::as_str(json::field(d, "name"@)) {
            Some(n) => if n.len() > 0 {
                Some(n)
            } else {
                None
            },
            None => None,
        },
        None => None,
    }
}

/// The members of an object whose values are strings, with those strings.
pub open spec fn string_members(m: Seq<(String, JsonValue)>) -> Seq<(Seq<char>, Seq<char>)>
    decreases m.len(),
{
    if m.len() == 0 {
        Seq::empty()
    } else {
        let rest = string_members(m.drop_last());
        match m.last().1 {
            JsonValue::Str(s) => rest.push((m.last().0@, s@)),
            _ => rest,
        }
    }
}

/// The scripts of a `package.json`: the members of its `scripts` object
/// whose values are command strings, as a map in ascending name order (of
/// two members with one name, the later wins).
pub open spec fn pkg_scripts(doc: Option<JsonValue>) -> Seq<(Seq<char>, Seq<char>)> {
    match doc {
        Some(d) => match json::field(d, "scripts"@) {
            Some(JsonValue::Object(m)) => text::map_of(string_members(m@)),
            _ => Seq::empty(),
        },
        None => Seq::empty(),
    }
}

/// The scripts of a `package.json` are named in strictly ascending order.
pub proof fn lemma_pkg_scripts_sorted(doc: Option<JsonValue>)
    ensures
        text::keys_sorted(pkg_scripts(doc)),
{
    match doc {
        Some(d) => match json::field(d, "scripts"@) {
            Some(JsonValue::Object(m)) => text::lemma_map_of_sorted(string_members(m@)),
            _ => {},
        },
        None => {},
    }
}

/// The `packageManager` field of a `package.json`, when it is a string.
pub open spec fn pkg_pm_field(doc: Option<JsonValue>) -> Option<Seq<char>> {
    match doc {
        Some(d) => json::as_str(json::field(d, "packageManager"@)),
        None => None,
    }
}

/// The string members of an object.
fn string_members_of(m: &Vec<(String, JsonValue)>) -> (r: Vec<(String, String)>)
    ensures
        pairs_view(r@) == string_members(m@),
{
    let mut out: Vec<(String, String)> = Vec::new();
    let mut i: usize = 0;
    while i < m.len()
        invariant
            i <= m@.len(),
            pairs_view(out@) == string_members(m@.take(i as int)),
        decreases m.len() - i,
    {
        assert(m@.take(i + 1).drop_last() == m@.take(i as int));
        assert(m@.take(i + 1).last() == m@[i as int]);
        match &m[i].1 {
            JsonValue::Str(s) => {
                let ghost before = out@;
                out.push((m[i].0.clone(), s.clone()));
                assert(pairs_view(out@) == pairs_view(before).push((m@[i as int].0@, s@)));
            },
            _ => {},
        }
        i = i + 1;
    }
    assert(m@.take(i as int) == m@);
    out
}

/// The text of a JSON value that is a string.
fn str_of(v: Option<&JsonValue>) -> (r: Option<String>)
    ensures
        opt_view(r) == json::as_str(match v {
            Some(x) => Some(*x),
            None => None,
        }),
{
    match v {
        Some(JsonValue::Str(s)) => Some(s.clone()),
        _ => None,
    }
}

/// The branch name of a git `HEAD` file: what follows
/// `ref: refs/heads/` when it points at a branch, else the first seven
/// characters of the commit it holds; the file trimmed first.
pub open spec fn branch_of(head: Seq<char>) -> Seq<char> {
    let h = text::trim(head);
    if text::starts_with(h, "ref: refs/heads/"@) {
        h.skip("ref: refs/heads/"@.len() as int)
    } else if h.len() <= 7 {
        h
    } else {
        h.take(7)
    }
}

/// The branch a repository is on, read from its `HEAD` file.
pub fn git_branch(head: &str) -> (r: String)
    ensures
        r@ == branch_of(head@),
{
    let v = chars_of(head);
    let (a, b) = trim_range(v.as_slice(), 0, v.len());
    assert(v@.subrange(0, v@.len() as int) == v@);
    let prefix = chars_of("ref: refs/heads/");
    if starts_with_in(v.as_slice(), a, b, "ref: refs/heads/") {
        assert(v@.subrange(a as int, b as int).skip(prefix@.len() as int) == v@.subrange(
            a + prefix@.len(),
            b as int,
        ));
        string_of_range(v.as_slice(), a + prefix.len(), b)
    } else if b - a <= 7 {
        string_of_range(v.as_slice(), a, b)
    } else {
        assert(v@.subrange(a as int, b as int).take(7) == v@.subrange(a as int, a + 7));
        string_of_range(v.as_slice(), a, a + 7)
    }
}

/// The git state of a folder: its branch when it has a `HEAD` file, and
/// whether `git status` reported changes (only meaningful with a branch).
pub open spec fn git_state(head: Option<Seq<char>>, dirty: bool) -> (Option<Seq<char>>, bool) {
    match head {
        Some(h) => (Some(branch_of(h)), dirty),
        None => (None, false),
    }
}

/// What a project folder holds, as far as the project list shows it.
#[derive(Debug)]
pub struct ProjectDir {
    /// The last component of the folder's path, if it has one.
    pub file_name: Option<String>,
    /// Whether `package.json` exists.
    pub package_json_exists: bool,
    /// The text of `package.json`, when it could be read.
    pub package_json: Option<String>,
    pub lockfiles: Lockfiles,
    /// The names of the folder's entries (those that are valid UTF-8).
    pub entries: Vec<String>,
    /// The text of `.git/HEAD`, when it could be read.
    pub git_head: Option<String>,
    /// Whether `git status --porcelain -uno` succeeded and printed changes.
    pub git_dirty: bool,
}

/// A project as the UI shows it.
#[derive(Debug)]
pub struct Project {
    pub id: String,
    pub name: String,
    pub path: String,
    /// The package manager to use: the user's choice, else the
    /// `packageManager` field, else the lock file, else pnpm.
    pub package_manager: String,
    /// Whether that package manager is installed here.
    pub pm_installed: bool,
    /// Whether the package manager was chosen by the user.
    pub pm_overridden: bool,
    /// Script names and their commands, in strictly ascending name order.
    pub scripts: Vec<(String, String)>,
    pub script_order: Vec<String>,
    pub autostart_scripts: Vec<String>,
    pub exists: bool,
    pub pinned: bool,
    pub git_branch: Option<String>,
    pub git_dirty: bool,
    pub launch: Vec<(String, LaunchConfig)>,
    /// The `.env*` files of the folder, in ascending order.
    pub env_files: Vec<String>,
}

/// The package manager of a project: the user's choice, else the corepack
/// field, else the lock file, else pnpm.
pub open spec fn chosen_pm(e: StoreEntryView, doc: Option<JsonValue>, l: Lockfiles) -> Seq<char> {
    match e.package_manager {
        Some(p) => p,
        None => match corepack_choice(pkg_pm_field(doc)) {
            Some(p) => p,
            None => match lockfile_choice(l) {
                Some(p) => p,
                None => "pnpm"@,
            },
        },
    }
}

/// The names of a list of scripts.
pub open spec fn script_names(scripts: Seq<(Seq<char>, Seq<char>)>) -> Seq<Seq<char>> {
    scripts.map_values(|p: (Seq<char>, Seq<char>)| p.0)
}

/// The names in `names` that are scripts of `scripts`, in order.
pub open spec fn existing_scripts(
    names: Seq<Seq<char>>,
    scripts: Seq<(Seq<char>, Seq<char>)>,
) -> Seq<Seq<char>> {
    names.filter(|n: Seq<char>| script_names(scripts).contains(n))
}

/// The view of a folder's package.json, parsed.
pub open spec fn dir_doc(dir: ProjectDir) -> Option<JsonValue> {
    match dir.package_json {
        Some(t) => json::parsed_json(t@),
        None => None,
    }
}

/// Whether the scripts hold one named `name`.
fn has_script(scripts: &Vec<(String, String)>, name: &str) -> (r: bool)
    ensures
        r == script_names(pairs_view(scripts@)).contains(name@),
{
    let ghost names = script_names(pairs_view(scripts@));
    let mut i: usize = 0;
    while i < scripts.len()
        invariant
            i <= scripts@.len(),
            names == script_names(pairs_view(scripts@)),
            forall|j: int| 0 <= j < i ==> #[trigger] names[j] != name@,
        decreases scripts.len() - i,
    {
        assert(names[i as int] == scripts@[i as int].0@);
        if str_eq(scripts[i].0.as_str(), name) {
            return true;
        }
        i = i + 1;
    }
    false
}

/// The names in `names` that are scripts, in order.
fn keep_existing(names: &Vec<String>, scripts: &Vec<(String, String)>) -> (r: Vec<String>)
    ensures
        views(r@) == existing_scripts(views(names@), pairs_view(scripts@)),
{
    let ghost p = |n: Seq<char>| script_names(pairs_view(scripts@)).contains(n);
    let mut out: Vec<String> = Vec::new();
    let mut i: usize = 0;
    while i < names.len()
        invariant
            i <= names@.len(),
            p == |n: Seq<char>| script_names(pairs_view(scripts@)).contains(n),
            views(out@) == views(names@).take(i as int).filter(p),
        decreases names.len() - i,
    {
        proof {
            reveal(Seq::filter);
            assert(views(names@).take(i + 1).drop_last() == views(names@).take(i as int));
            assert(views(names@).take(i + 1).last() == names@[i as int]@);
        }
        if has_script(scripts, names[i].as_str()) {
            let ghost before = out@;
            out.push(names[i].clone());
            assert(views(out@) =~= views(before).push(names@[i as int]@));
        }
        i = i + 1;
    }
    assert(views(names@).take(i as int) == views(names@));
    out
}

/// The `.env` files among a folder's entries.
pub open spec fn env_file_names(entries: Seq<Seq<char>>) -> Seq<Seq<char>> {
    entries.filter(|n: Seq<char>| text::starts_with(n, ".env"@))
}

/// The entries whose names start with `.env`, in their order.
fn env_entries(entries: &Vec<String>) -> (r: Vec<String>)
    ensures
        views(r@) == env_file_names(views(entries@)),
{
    let ghost p = |n: Seq<char>| text::starts_with(n, ".env"@);
    let mut out: Vec<String> = Vec::new();
    let mut i: usize = 0;
    while i < entries.len()
        invariant
            i <= entries@.len(),
            p == |n: Seq<char>| text::starts_with(n, ".env"@),
            views(out@) == views(entries@).take(i as int).filter(p),
        decreases entries.len() - i,
    {
        proof {
            reveal(Seq::filter);
            assert(views(entries@).take(i + 1).drop_last() == views(entries@).take(i as int));
            assert(views(entries@).take(i + 1).last() == entries@[i as int]@);
        }
        let v = chars_of(entries[i].as_str());
        assert(v@.subrange(0, v@.len() as int) == v@);
        if starts_with_in(v.as_slice(), 0, v.len(), ".env") {
            let ghost before = out@;
            out.push(entries[i].clone());
            assert(views(out@) == views(before).push(entries@[i as int]@));
        }
        i = i + 1;
    }
    assert(views(entries@).take(i as int) == views(entries@));
    out
}

/// Reads a stored project: its name, scripts, package manager, git state
/// and env files from what its folder holds (`dir`), given the package
/// managers `installed` here.
pub fn build_project(entry: &StoreEntry, dir: &ProjectDir, installed: &Vec<String>) -> (r: Project)
    ensures
        r.id@ == id_of(entry.path@),
        r.name@ == match pkg_name(dir_doc(*dir)) {
            Some(n) => n,
            None => match dir.file_name {
                Some(f) => f@,
                None => entry.path@,
            },
        },
        r.path@ == entry.path@,
        r.package_manager@ == chosen_pm(entry@, dir_doc(*dir), dir.lockfiles),
        r.pm_installed == views(installed@).contains(r.package_manager@),
        r.pm_overridden == (entry.package_manager is Some),
        pairs_view(r.scripts@) == pkg_scripts(dir_doc(*dir)),
        text::keys_sorted(pairs_view(r.scripts@)),
        views(r.script_order@) == existing_scripts(
            views(entry.script_order@),
            pkg_scripts(dir_doc(*dir)),
        ),
        views(r.autostart_scripts@) == existing_scripts(
            views(entry.autostart_scripts@),
            pkg_scripts(dir_doc(*dir)),
        ),
        r.exists == dir.package_json_exists,
        r.pinned == entry.pinned,
        (opt_view(r.git_branch), r.git_dirty) == git_state(opt_view(dir.git_head), dir.git_dirty),
        launches_view(r.launch@) == launches_view(entry.launch@),
        text::sorted(views(r.env_files@)),
        views(r.env_files@).to_multiset() == env_file_names(views(dir.entries@)).to_multiset(),
{
    let doc: Option<JsonValue> = match &dir.package_json {
        Some(t) => parse_json(t.as_str()),
        None => None,
    };
    assert(doc == dir_doc(*dir));
    project_from_doc(entry, dir, doc, installed)
}

/// Builds a stored project from what its folder holds (`dir`) and its
/// parsed `package.json` (`doc`; `None` when it is missing or not JSON),
/// given the package managers `installed` here.
pub fn project_from_doc(
    entry: &StoreEntry,
    dir: &ProjectDir,
    doc: Option<JsonValue>,
    installed: &Vec<String>,
) -> (r: Project)
    ensures
        r.id@ == id_of(entry.path@),
        r.name@ == match pkg_name(doc) {
            Some(n) => n,
            None => match dir.file_name {
                Some(f) => f@,
                None => entry.path@,
            },
        },
        r.path@ == entry.path@,
        r.package_manager@ == chosen_pm(entry@, doc, dir.lockfiles),
        r.pm_installed == views(installed@).contains(r.package_manager@),
        r.pm_overridden == (entry.package_manager is Some),
        pairs_view(r.scripts@) == pkg_scripts(doc),
        text::keys_sorted(pairs_view(r.scripts@)),
        views(r.script_order@) == existing_scripts(
            views(entry.script_order@),
            pkg_scripts(doc),
        ),
        views(r.autostart_scripts@) == existing_scripts(
            views(entry.autostart_scripts@),
            pkg_scripts(doc),
        ),
        r.exists == dir.package_json_exists,
        r.pinned == entry.pinned,
        (opt_view(r.git_branch), r.git_dirty) == git_state(opt_view(dir.git_head), dir.git_dirty),
        launches_view(r.launch@) == launches_view(entry.launch@),
        text::sorted(views(r.env_files@)),
        views(r.env_files@).to_multiset() == env_file_names(views(dir.entries@)).to_multiset(),
{
    let mut name = match &dir.file_name {
        Some(f) => f.clone(),
        None => entry.path.clone(),
    };
    let mut scripts: Vec<(String, String)> = Vec::new();
    let mut pm_field: Option<String> = None;
    assert(pairs_view(scripts@) == Seq::<(Seq<char>, Seq<char>)>::empty());
    match &doc {
        Some(d) => {
            match str_of(get_field(d, "name")) {
                Some(n) => {
                    if !n.as_str().is_empty() {
                        name = n;
                    }
                },
                None => {},
            }
            match get_field(d, "scripts") {
                Some(JsonValue::Object(m)) => {
                    scripts = text::map_of_strings(&string_members_of(m));
                },
                _ => {},
            }
            pm_field = str_of(get_field(d, "packageManager"));
        },
        None => {},
    }
    assert(opt_view(pm_field) == pkg_pm_field(doc));
    let package_manager = match &entry.package_manager {
        Some(p) => p.clone(),
        None => match corepack_pm(match &pm_field {
            Some(f) => Some(f.as_str()),
            None => None,
        }) {
            Some(p) => p,
            None => match lockfile_pm(&dir.lockfiles) {
                Some(p) => p,
                None => string_of(chars_of("pnpm").as_slice()),
            },
        },
    };
    let pm_installed = contains_string(installed, package_manager.as_str());
    let env_files = sort_strings(env_entries(&dir.entries));
    let (git_branch, git_dirty) = match &dir.git_head {
        Some(h) => (Some(git_branch(h.as_str())), dir.git_dirty),
        None => (None, false),
    };
    proof {
        lemma_pkg_scripts_sorted(doc);
    }
    let script_order = keep_existing(&entry.script_order, &scripts);
    let autostart_scripts = keep_existing(&entry.autostart_scripts, &scripts);
    Project {
        id: project_id(entry.path.as_str()),
        name,
        path: entry.path.clone(),
        package_manager,
        pm_installed,
        pm_overridden: entry.package_manager.is_some(),
        scripts,
        script_order,
        autostart_scripts,
        exists: dir.package_json_exists,
        pinned: entry.pinned,
        git_branch,
        git_dirty,
        launch: copy_launches(&entry.launch),
        env_files,
    }
}


/// The projects in list order: pinned ones first; within each group the
/// order of the store (a stable sort on the pin).
pub open spec fn pinned_first_order(ps: Seq<Project>) -> Seq<Project> {
    ps.filter(|p: Project| p.pinned) + ps.filter(|p: Project| !p.pinned)
}

/// Orders projects for the list: pinned ones first, each group in the
/// order the user gave the store.
pub fn pinned_first(projects: Vec<Project>) -> (r: Vec<Project>)
    ensures
        r@ == pinned_first_order(projects@),
{
    let ghost ps = projects@;
    let mut pinned: Vec<Project> = Vec::new();
    let mut rest: Vec<Project> = Vec::new();
    for p in it: projects
        invariant
            it.seq() == ps,
            pinned@ == ps.take(it.index() as int).filter(|p: Project| p.pinned),
            rest@ == ps.take(it.index() as int).filter(|p: Project| !p.pinned),
    {
        proof {
            reveal(Seq::filter);
            let k = it.index() as int;
            assert(ps.take(k + 1).drop_last() == ps.take(k));
            assert(ps.take(k + 1).last() == ps[k]);
        }
        if p.pinned {
            pinned.push(p);
        } else {
            rest.push(p);
        }
    }
    assert(ps.take(ps.len() as int) == ps);
    pinned.append(&mut rest);
    pinned
}

/// In list order no unpinned project comes before a pinned one, and no
/// project is added or dropped.
pub proof fn lemma_pinned_first(ps: Seq<Project>)
    ensures
        forall|i: int, j: int|
            0 <= i < j < pinned_first_order(ps).len() && #[trigger] pinned_first_order(ps)[j].pinned
                ==> #[trigger] pinned_first_order(ps)[i].pinned,
        pinned_first_order(ps).to_multiset() == ps.to_multiset(),
{
    broadcast use vstd::seq_lib::group_filter_ensures;
    let a = ps.filter(|p: Project| p.pinned);
    let b = ps.filter(|p: Project| !p.pinned);
    let t = pinned_first_order(ps);
    assert forall|i: int, j: int|
        0 <= i < j < t.len() && #[trigger] t[j].pinned implies #[trigger] t[i].pinned by {
        if j >= a.len() {
            assert(t[j] == b[j - a.len()]);
        } else {
            assert(t[i] == a[i]);
        }
    }
    lemma_filter_split(ps, |p: Project| true, |p: Project| p.pinned, |p: Project| !p.pinned);
    lemma_filter_all(ps, |p: Project| true);
    vstd::seq_lib::lemma_multiset_commutative(a, b);
}

// ---------------------------------------------------------------------------
// Well-formed stores: each name once.
// ---------------------------------------------------------------------------

/// Whether a launch list names each script once, and each of its
/// configurations sets each variable once.
pub open spec fn launches_wf(l: LaunchList) -> bool {
    &&& text::keys_unique(l)
    &&& forall|p: (Seq<char>, LaunchConfigView)| #[trigger] l.contains(p) ==> text::keys_unique(
        p.1.env,
    )
}

/// Whether a stored project's launch configurations are well formed.
pub open spec fn entry_wf(e: StoreEntryView) -> bool {
    launches_wf(e.launch)
}

/// Whether every stored project is well formed.
pub open spec fn store_wf(es: Seq<StoreEntryView>) -> bool {
    forall|e: StoreEntryView| #[trigger] es.contains(e) ==> entry_wf(e)
}

/// Dropping a script's configurations keeps the others, each named once.
proof fn lemma_drop_script_wf(l: LaunchList, script: Seq<char>)
    requires
        launches_wf(l),
    ensures
        launches_wf(drop_script(l, script)),
        forall|i: int| 0 <= i < drop_script(l, script).len() ==> #[trigger] drop_script(l, script)[i].0
            != script,
    decreases l.len(),
{
    let pred = |p: (Seq<char>, LaunchConfigView)| p.0 != script;
    reveal(Seq::filter);
    broadcast use vstd::seq::Seq::lemma_filter_contains_rev;
    broadcast use vstd::seq_lib::group_filter_ensures;
    if l.len() > 0 {
        let init = l.drop_last();
        assert forall|i: int, j: int| 0 <= i < j < init.len() implies #[trigger] init[i].0
            != #[trigger] init[j].0 by {
            assert(init[i] == l[i] && init[j] == l[j]);
        }
        assert forall|p: (Seq<char>, LaunchConfigView)| #[trigger] init.contains(p) implies text::keys_unique(p.1.env) by {
            let k = choose|k: int| 0 <= k < init.len() && init[k] == p;
            assert(l[k] == p);
            assert(l.contains(p));
        }
        lemma_drop_script_wf(init, script);
        let r = drop_script(init, script);
        let t = drop_script(l, script);
        if pred(l.last()) {
            assert(t == r.push(l.last()));
            assert forall|i: int, j: int| 0 <= i < j < t.len() implies #[trigger] t[i].0
                != #[trigger] t[j].0 by {
                if j == t.len() - 1 {
                    assert(r.contains(t[i]));
                    assert(init.contains(t[i]));
                    let k = choose|k: int| 0 <= k < init.len() && init[k] == t[i];
                    assert(l[k] == init[k]);
                    assert(l[l.len() - 1] == l.last());
                } else {
                    assert(t[i] == r[i] && t[j] == r[j]);
                }
            }
            assert forall|p: (Seq<char>, LaunchConfigView)| #[trigger] t.contains(p) implies text::keys_unique(p.1.env) by {
                assert(l.contains(p));
            }
        } else {
            assert(t == r);
        }
    }
}

/// Setting a script's configuration keeps a launch list well formed,
/// provided the new configuration sets each variable once.
proof fn lemma_launches_after_wf(l: LaunchList, script: Seq<char>, cfg: Option<LaunchConfigView>)
    requires
        launches_wf(l),
        cfg matches Some(c) ==> text::keys_unique(c.env),
    ensures
        launches_wf(launches_after(l, script, cfg)),
{
    lemma_drop_script_wf(l, script);
    let rest = drop_script(l, script);
    if let Some(c) = cfg {
        if !launch_is_empty(c) {
            let t = rest.push((script, c));
            assert forall|i: int, j: int| 0 <= i < j < t.len() implies #[trigger] t[i].0
                != #[trigger] t[j].0 by {
                if j == t.len() - 1 {
                    assert(t[i] == rest[i]);
                } else {
                    assert(t[i] == rest[i] && t[j] == rest[j]);
                }
            }
            assert forall|p: (Seq<char>, LaunchConfigView)| #[trigger] t.contains(p) implies text::keys_unique(p.1.env) by {
                let k = choose|k: int| 0 <= k < t.len() && t[k] == p;
                if k < rest.len() {
                    assert(rest[k] == p);
                    assert(rest.contains(p));
                }
            }
        }
    }
}

/// Changing the matching entries by an edit that keeps entries well formed
/// keeps the store well formed.
proof fn lemma_update_wf(es: Seq<StoreEntryView>, id: Seq<char>, f: spec_fn(StoreEntryView) -> StoreEntryView)
    requires
        store_wf(es),
        forall|e: StoreEntryView| entry_wf(e) ==> entry_wf(#[trigger] f(e)),
    ensures
        store_wf(update_matching(es, id, f)),
{
    let u = update_matching(es, id, f);
    assert forall|x: StoreEntryView| #[trigger] u.contains(x) implies entry_wf(x) by {
        let k = choose|k: int| 0 <= k < u.len() && u[k] == x;
        assert(es.contains(es[k]));
        assert(entry_wf(es[k]));
    }
}

/// Every change the user makes to the list keeps the store well formed:
/// no script of a project gets two launch configurations, and no
/// configuration sets a variable twice, provided a configuration being
/// saved sets each variable once.
pub proof fn lemma_store_stays_well_formed(
    es: Seq<StoreEntryView>,
    id: Seq<char>,
    path: Seq<char>,
    ids: Seq<Seq<char>>,
    order: Seq<Seq<char>>,
    script: Seq<char>,
    enabled: bool,
    pm: Option<Seq<char>>,
    cfg: Option<LaunchConfigView>,
)
    requires
        store_wf(es),
        cfg matches Some(c) ==> text::keys_unique(c.env),
    ensures
        store_wf(update_matching(es, id, |e: StoreEntryView| flip_pin(e))),
        store_wf(update_matching(es, id, |e: StoreEntryView| with_script_order(e, order))),
        store_wf(update_matching(es, id, |e: StoreEntryView| with_autostart(e, script, enabled))),
        store_wf(update_matching(es, id, |e: StoreEntryView| with_pm(e, pm))),
        store_wf(update_matching(es, id, |e: StoreEntryView| with_launch(e, script, cfg))),
        store_wf(without_id(es, id)),
        store_wf(list_with(es, path)),
        store_wf(ordered_by_ids(es, ids)),
{
    lemma_update_wf(es, id, |e: StoreEntryView| flip_pin(e));
    lemma_update_wf(es, id, |e: StoreEntryView| with_script_order(e, order));
    lemma_update_wf(es, id, |e: StoreEntryView| with_autostart(e, script, enabled));
    lemma_update_wf(es, id, |e: StoreEntryView| with_pm(e, pm));
    let set_cfg = |e: StoreEntryView| with_launch(e, script, cfg);
    assert forall|e: StoreEntryView| entry_wf(e) implies entry_wf(#[trigger] set_cfg(e)) by {
        lemma_launches_after_wf(e.launch, script, cfg);
    }
    lemma_update_wf(es, id, set_cfg);
    broadcast use vstd::seq::Seq::lemma_filter_contains_rev;
    let w = without_id(es, id);
    assert forall|x: StoreEntryView| #[trigger] w.contains(x) implies entry_wf(x) by {
        assert(es.contains(x));
    }
    let a = list_with(es, path);
    assert forall|x: StoreEntryView| #[trigger] a.contains(x) implies entry_wf(x) by {
        if first_with_path(es, path) is None {
            let k = choose|k: int| 0 <= k < a.len() && a[k] == x;
            if k < es.len() {
                assert(es[k] == x);
                assert(es.contains(x));
            } else {
                assert(x == new_entry(path));
            }
        }
    }
    let o = ordered_by_ids(es, ids);
    lemma_order_is_permutation(es, ids);
    broadcast use vstd::seq_lib::group_to_multiset_ensures;
    assert forall|x: StoreEntryView| #[trigger] o.contains(x) implies entry_wf(x) by {
        assert(o.to_multiset().count(x) > 0);
        assert(es.contains(x));
    }
}

/// Adding two folders whose ids differ to an empty list and pinning the
/// second pins exactly that one, so the second is listed first (see
/// `lemma_pinned_first`). Ids are hashes of paths, so two different paths
/// can in principle share one; then pinning by id pins both.
pub proof fn lemma_pin_second_of_two(a: Seq<char>, b: Seq<char>)
    requires
        id_of(a) != id_of(b),
    ensures
        update_matching(
            list_with(list_with(Seq::empty(), a), b),
            id_of(b),
            |e: StoreEntryView| flip_pin(e),
        ) == seq![new_entry(a), flip_pin(new_entry(b))],
{
    let one = list_with(Seq::empty(), a);
    assert(one == seq![new_entry(a)]);
    assert(a != b);
    assert(one.drop_first() == Seq::<StoreEntryView>::empty());
    assert(one[0].path == a);
    assert(first_with_path(one.drop_first(), b) is None);
    assert(first_with_path(one, b) is None);
    let two = list_with(one, b);
    assert(two == seq![new_entry(a), new_entry(b)]);
    let u = update_matching(two, id_of(b), |e: StoreEntryView| flip_pin(e));
    assert(u =~= seq![new_entry(a), flip_pin(new_entry(b))]);
}

} // verus!
