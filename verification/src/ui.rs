use crate::catalog::AppEntry;
use vstd::prelude::*;

verus! {

/// Where a row's icon comes from: an explicit asset path out of the
/// configuration, or a system lookup by a logical name.
#[derive(Clone, Debug)]
pub enum IconSource {
    /// Load this asset path directly.
    Direct(String),
    /// Look this name up in the installed icon themes.
    Lookup(String),
}

/// One visible row of the current tab.
#[derive(Clone, Debug)]
pub struct RowModel {
    pub label: String,
    pub icon: IconSource,
    pub selected: bool,
}

/// The icon source an entry asks for: an entry with a non-empty icon field
/// loads that path directly and never asks for a system lookup; an entry with
/// an empty icon field is looked up under its command string.
pub fn icon_source(entry: &AppEntry) -> (s: IconSource)
    ensures
        entry.icon@.len() > 0 ==> s == IconSource::Direct(entry.icon),
        entry.icon@.len() == 0 ==> s == IconSource::Lookup(entry.command),
{
    if entry.icon.as_str().is_empty() {
        IconSource::Lookup(entry.command.clone())
    } else {
        IconSource::Direct(entry.icon.clone())
    }
}

/// The rows of one tab, rebuilt from scratch: one row per entry in order,
/// labelled with the entry's name, carrying its icon source, and exactly the
/// row at `selection` highlighted.
pub fn build_rows(apps: &Vec<AppEntry>, selection: usize) -> (rows: Vec<RowModel>)
    ensures
        rows@.len() == apps@.len(),
        forall|i: int|
            0 <= i < rows@.len() ==> {
                let r = #[trigger] rows@[i];
                &&& r.label == apps@[i].name
                &&& r.selected == (i == selection as int)
                &&& (apps@[i].icon@.len() > 0 ==> r.icon == IconSource::Direct(apps@[i].icon))
                &&& (apps@[i].icon@.len() == 0 ==> r.icon == IconSource::Lookup(apps@[i].command))
            },
{
    let mut rows: Vec<RowModel> = Vec::new();
    let mut i: usize = 0;
    while i < apps.len()
        invariant
            i <= apps@.len(),
            rows@.len() == i,
            forall|k: int|
                0 <= k < i ==> {
                    let r = #[trigger] rows@[k];
                    &&& r.label == apps@[k].name
                    &&& r.selected == (k == selection as int)
                    &&& (apps@[k].icon@.len() > 0 ==> r.icon == IconSource::Direct(apps@[k].icon))
                    &&& (apps@[k].icon@.len() == 0 ==> r.icon == IconSource::Lookup(
                        apps@[k].command,
                    ))
                },
        decreases apps@.len() - i,
    {
        let entry = &apps[i];
        let row = RowModel {
            label: entry.name.clone(),
            icon: icon_source(entry),
            selected: i == selection,
        };
        rows.push(row);
        i = i + 1;
    }
    rows
}

/// The last index before `upto` holding character `c`, if any.
pub open spec fn rfind_char(s: Seq<char>, c: char, upto: int) -> Option<int>
    decreases upto,
{
    if upto <= 0 {
        Option::None
    } else if s[upto - 1] == c {
        Option::Some(upto - 1)
    } else {
        rfind_char(s, c, upto - 1)
    }
}

fn rfind_char_exec(s: &str, c: char, upto: usize) -> (r: Option<usize>)
    requires
        upto <= s@.len(),
    ensures
        match r {
            Option::None => rfind_char(s@, c, upto as int) is None,
            Option::Some(k) => rfind_char(s@, c, upto as int) == Option::Some(k as int) && k
                < upto,
        },
    decreases upto,
{
    if upto == 0 {
        Option::None
    } else if s.get_char(upto - 1) == c {
        Option::Some(upto - 1)
    } else {
        rfind_char_exec(s, c, upto - 1)
    }
}

/// The extension of the file a path names: what follows the last dot of the
/// final path component; none when the component has no dot, or its only dot
/// starts it (a hidden file).
pub open spec fn spec_extension(p: Seq<char>) -> Option<Seq<char>> {
    let comp = match rfind_char(p, '/', p.len() as int) {
        Option::Some(k) => p.skip(k + 1),
        Option::None => p,
    };
    match rfind_char(comp, '.', comp.len() as int) {
        Option::None => Option::None,
        Option::Some(d) => if d == 0 {
            Option::None
        } else {
            Option::Some(comp.skip(d + 1))
        },
    }
}

/// Read a path's extension out of its characters.
pub fn path_extension(p: &str) -> (r: Option<String>)
    ensures
        (r is None) == (spec_extension(p@) is None),
        r matches Option::Some(e) ==> spec_extension(p@) == Option::Some(e@),
{
    let n = p.unicode_len();
    let comp_start: usize = match rfind_char_exec(p, '/', n) {
        Option::Some(k) => k + 1,
        Option::None => 0,
    };
    let comp = p.substring_char(comp_start, n);
    proof {
        assert(comp@ =~= match rfind_char(p@, '/', p@.len() as int) {
            Option::Some(k) => p@.skip(k + 1),
            Option::None => p@,
        });
    }
    let m = comp.unicode_len();
    match rfind_char_exec(comp, '.', m) {
        Option::None => Option::None,
        Option::Some(d) => {
            if d == 0 {
                Option::None
            } else {
                let ext = comp.substring_char(d + 1, m).to_owned();
                proof {
                    assert(ext@ =~= comp@.skip(d + 1));
                }
                Option::Some(ext)
            }
        },
    }
}

/// The file in the local asset cache that holds the copy of a looked-up icon.
pub open spec fn cache_file_name(name: Seq<char>, ext: Seq<char>) -> Seq<char> {
    "assets/icons/"@ + name + "."@ + ext
}

/// The asset path the renderer loads a cached icon by.
pub open spec fn asset_path_name(name: Seq<char>, ext: Seq<char>) -> Seq<char> {
    "icons/"@ + name + "."@ + ext
}

fn join_name(prefix: &str, name: &str, ext: &str) -> (r: String)
    ensures
        r@ == prefix@ + name@ + "."@ + ext@,
{
    let mut s = prefix.to_owned();
    s.append(name);
    s.append(".");
    s.append(ext);
    s
}

/// A system icon that was found: the file the lookup named, the cache file
/// that is to hold its copy, and the asset path the renderer loads.
#[derive(Clone, Debug)]
pub struct LocatedIcon {
    pub source_path: String,
    pub cache_file: String,
    pub asset_path: String,
}

impl LocatedIcon {
    /// A field-for-field copy.
    pub fn duplicate(&self) -> (r: LocatedIcon)
        ensures
            r == *self,
    {
        LocatedIcon {
            source_path: self.source_path.clone(),
            cache_file: self.cache_file.clone(),
            asset_path: self.asset_path.clone(),
        }
    }
}

/// Plan the caching of a looked-up icon file: a found file with an extension
/// is cached under the logical name plus that extension; a missing file, or
/// one without an extension, leaves nothing to cache and the placeholder is
/// shown instead.
pub fn plan_icon_cache(name: &str, found: Option<String>) -> (r: Option<LocatedIcon>)
    ensures
        found is None ==> r is None,
        found matches Option::Some(p) ==> (match spec_extension(p@) {
            Option::None => r is None,
            Option::Some(e) => r matches Option::Some(l) && l.source_path == p && l.cache_file@
                == cache_file_name(name@, e) && l.asset_path@ == asset_path_name(name@, e),
        }),
{
    match found {
        Option::None => Option::None,
        Option::Some(p) => {
            match path_extension(p.as_str()) {
                Option::None => Option::None,
                Option::Some(ext) => {
                    let cache_file = join_name("assets/icons/", name, ext.as_str());
                    let asset_path = join_name("icons/", name, ext.as_str());
                    Option::Some(LocatedIcon { source_path: p, cache_file, asset_path })
                },
            }
        },
    }
}

/// Relies on freedesktop_icons::lookup: searches the icon themes installed on
/// this machine for a file carrying this logical icon name. What it finds
/// depends on the machine's disk, so nothing is promised of the result.
#[verifier::external_body]
fn system_icon_lookup(name: &str) -> (r: Option<String>) {
    freedesktop_icons::lookup(name).find().map(|p| p.to_string_lossy().into_owned())
}

/// Look a logical icon name up on this machine and plan its caching. Whether
/// anything is found depends on the machine, but whatever is found is planned
/// exactly as `plan_icon_cache` says for it.
pub fn locate_icon(name: &str) -> (r: Option<LocatedIcon>)
    ensures
        r matches Option::Some(l) ==> (match spec_extension(l.source_path@) {
            Option::Some(e) => l.cache_file@ == cache_file_name(name@, e) && l.asset_path@
                == asset_path_name(name@, e),
            Option::None => false,
        }),
{
    let found = system_icon_lookup(name);
    plan_icon_cache(name, found)
}

/// What to do for a located icon, given whether its cache file already exists.
#[derive(Clone, Debug)]
pub enum IconDirective {
    /// Load the cached asset as it stands; nothing is copied.
    UseCached(String),
    /// Copy the source file to the cache file, then load the asset path.
    CopyThenUse(LocatedIcon),
}

/// Decide the cache step for a located icon: a copy already in the cache is
/// loaded as it is and never copied again; a fresh icon is copied first.
pub fn icon_cache_step(located: &LocatedIcon, already_cached: bool) -> (d: IconDirective)
    ensures
        already_cached ==> d == IconDirective::UseCached(located.asset_path),
        !already_cached ==> d == IconDirective::CopyThenUse(*located),
{
    if already_cached {
        IconDirective::UseCached(located.asset_path.clone())
    } else {
        IconDirective::CopyThenUse(located.duplicate())
    }
}

/// The asset shown when no icon can be found.
pub fn placeholder_icon_path() -> (r: String)
    ensures
        r@ == "icons/testcat.png"@,
{
    "icons/testcat.png".to_owned()
}

} // verus!
