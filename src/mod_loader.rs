//! Mods: reading a mod's description, checking it against its package,
//! and choosing which installed mods to load with their dependencies.
//!
//! Finding the packages and reading their files is left to the caller.

use vstd::prelude::*;
use crate::config::{config_text, parse};
use crate::description::{lookup, lookup_string, Dict, Value};
use crate::lexer::chars_of;
use crate::text::{split_chars, split_on};
use crate::version::{version_parts, Version};

verus! {

pub struct ModDescription {
    pub name: String,
    pub version: Version,
    pub gameVersion: Version,
    pub description: String,
    pub dependencies: Vec<(String, Version)>,
}

pub struct Mod {
    pub description: ModDescription,
    pub fileName: String,
    pub isActive: bool,
}

/// A dependency written `name-version` with a valid version.
pub open spec fn dependency_ok(d: Seq<char>) -> bool {
    split_on(d, '-').len() == 2 && version_parts(split_on(d, '-')[1]) is Some
}

/// The description's parameters are all there and well formed.
pub open spec fn description_ok(p: Seq<(Seq<char>, Value)>) -> bool {
    &&& lookup_string(p, "name"@) is Some
    &&& lookup_string(p, "version"@) matches Some(v) && version_parts(v) is Some
    &&& lookup_string(p, "game version"@) matches Some(v) && version_parts(v) is Some
    &&& lookup_string(p, "description"@) is Some
    &&& lookup(p, "dependencies"@) matches Some(Value::List(_, e)) && forall|i: int|
        0 <= i < e.len() ==> (#[trigger] e[i] matches Value::Str(_, d) && dependency_ok(d))
}

pub open spec fn version_of(v: Version, s: Seq<char>) -> bool {
    version_parts(s) matches Some(p) && v.versionHash == crate::version::hash_of(p)
}

fn dependency(d: &String) -> (r: Result<(String, Version), String>)
    ensures
        dependency_ok(d@) <==> r is Ok,
        r matches Ok((n, v)) ==> n@ == split_on(d@, '-')[0] && version_of(v, split_on(d@, '-')[1]),
{
    let chars = chars_of(d.as_str());
    let parts = split_chars(&chars, '-');
    if parts.len() != 2 {
        return Err("Name of dependence mod is invalid - expected format <name of mod>-<version>".to_string());
    }
    let version = match Version::parse(&crate::text::string_of(parts[1].as_slice())) {
        Ok(v) => v,
        Err(e) => {
            return Err(e);
        },
    };
    Ok((crate::text::string_of(parts[0].as_slice()), version))
}

fn description_fields(root: Dict) -> (r: Result<ModDescription, String>)
    ensures
        description_ok(root.model()) <==> r is Ok,
        r matches Ok(d) ==> {
            &&& lookup_string(root.model(), "name"@) == Some(d.name@)
            &&& version_of(d.version, lookup_string(root.model(), "version"@)->0)
            &&& version_of(d.gameVersion, lookup_string(root.model(), "game version"@)->0)
            &&& lookup_string(root.model(), "description"@) == Some(d.description@)
        },
{
    let name = match root.getString("name") {
        Ok(s) => s.clone(),
        Err(e) => {
            return Err(e);
        },
    };
    let version = match root.getString("version") {
        Ok(s) => match Version::parse(s) {
            Ok(v) => v,
            Err(e) => {
                return Err(e);
            },
        },
        Err(e) => {
            return Err(e);
        },
    };
    let gameVersion = match root.getString("game version") {
        Ok(s) => match Version::parse(s) {
            Ok(v) => v,
            Err(e) => {
                return Err(e);
            },
        },
        Err(e) => {
            return Err(e);
        },
    };
    let description = match root.getString("description") {
        Ok(s) => s.clone(),
        Err(e) => {
            return Err(e);
        },
    };
    let list = match root.getList("dependencies") {
        Ok(l) => l,
        Err(e) => {
            return Err(e);
        },
    };
    let ghost e = crate::description::elements_model(list.elements@);
    proof {
        crate::description::lemma_elements_model(list.elements@);
    }
    let mut dependencies: Vec<(String, Version)> = Vec::new();
    let mut i: usize = 0;
    while i < list.elements.len()
        invariant
            e == crate::description::elements_model(list.elements@),
            e.len() == list.elements@.len(),
            forall|k: int|
                0 <= k < e.len() ==> #[trigger] e[k] == crate::description::value_model(
                    list.elements@[k],
                ),
            lookup(root.model(), "dependencies"@) == Some(
                crate::description::value_model(crate::description::ParameterValue::List(*list)),
            ),
            i <= list.elements@.len(),
            forall|k: int| 0 <= k < i ==> (#[trigger] e[k] matches Value::Str(_, d) && dependency_ok(d)),
        decreases list.elements@.len() - i,
    {
        let d = match list.elements[i].getString() {
            Ok(s) => s,
            Err(err) => {
                assert(!(e[i as int] is Str));
                return Err(err);
            },
        };
        match dependency(d) {
            Ok(x) => {
                dependencies.push(x);
            },
            Err(err) => {
                return Err(err);
            },
        }
        i = i + 1;
    }
    Ok(ModDescription { name, version, gameVersion, description, dependencies })
}

impl ModDescription {
    /// The description in the configuration text `text`.
    pub fn read(text: &String) -> (r: Result<ModDescription, String>)
        ensures
            match config_text(text@) {
                Some(Value::Dict(_, p)) => (description_ok(p) <==> r is Ok) && (r matches Ok(d) ==> {
                    &&& lookup_string(p, "name"@) == Some(d.name@)
                    &&& version_of(d.version, lookup_string(p, "version"@)->0)
                    &&& version_of(d.gameVersion, lookup_string(p, "game version"@)->0)
                    &&& lookup_string(p, "description"@) == Some(d.description@)
                }),
                _ => r is Err,
            },
    {
        parse(text, description_fields)
    }
}

impl Mod {
    /// The mod in the package `fileName`, whose description file holds
    /// `content`; the package's name must begin with the mod's name.
    pub fn readInstalledModDescription(fileName: String, content: &String) -> (r: Result<Mod, String>)
        ensures
            r matches Ok(m) ==> m.fileName == fileName && !m.isActive && m.description.name@.len()
                <= fileName@.len() && fileName@.subrange(0, m.description.name@.len() as int)
                == m.description.name@,
    {
        let description = match ModDescription::read(content) {
            Ok(d) => d,
            Err(e) => {
                return Err(e);
            },
        };
        let file = chars_of(fileName.as_str());
        if !crate::text::starts_with(file.as_slice(), description.name.as_str()) {
            return Err("Mod has different names of its file and name in mod.description".to_string());
        }
        Ok(Mod { description, fileName, isActive: false })
    }
}

/// Each of `files` is the package of an installed mod.
pub open spec fn from_installed(files: Seq<String>, installed: Seq<Mod>) -> bool {
    forall|k: int|
        0 <= k < files.len() ==> exists|i: int|
            0 <= i < installed.len() && (#[trigger] files[k])@ == installed[i].fileName@
}

/// How many mods are still to be activated.
pub open spec fn waiting(active: Seq<bool>) -> nat
    decreases active.len(),
{
    if active.len() == 0 {
        0
    } else {
        waiting(active.drop_last()) + if active.last() {
            0nat
        } else {
            1nat
        }
    }
}

proof fn lemma_waiting_update(active: Seq<bool>, i: int)
    requires
        0 <= i < active.len(),
        !active[i],
    ensures
        waiting(active.update(i, true)) + 1 == waiting(active),
    decreases active.len(),
{
    if i < active.len() - 1 {
        lemma_waiting_update(active.drop_last(), i);
        assert(active.update(i, true).drop_last() =~= active.drop_last().update(i, true));
    } else {
        assert(active.update(i, true).drop_last() =~= active.drop_last());
    }
}

fn find_mod(mods: &Vec<Mod>, name: &String) -> (r: Option<usize>)
    ensures
        r matches Some(i) ==> i < mods@.len() && mods@[i as int].description.name@ == name@,
        r is None ==> forall|i: int| 0 <= i < mods@.len() ==> mods@[i].description.name@ != name@,
{
    let mut i: usize = 0;
    while i < mods.len()
        invariant
            i <= mods@.len(),
            forall|k: int| 0 <= k < i ==> mods@[k].description.name@ != name@,
        decreases mods@.len() - i,
    {
        if mods[i].description.name == *name {
            return Some(i);
        }
        i = i + 1;
    }
    None
}

fn active_names(root: Dict) -> (r: Result<Vec<String>, String>) {
    let list = match root.getList("active mods") {
        Ok(l) => l,
        Err(e) => {
            return Err(e);
        },
    };
    let mut names: Vec<String> = Vec::new();
    let mut i: usize = 0;
    while i < list.elements.len()
        decreases list.elements@.len() - i,
    {
        match list.elements[i].getString() {
            Ok(s) => names.push(s.clone()),
            Err(e) => {
                return Err(e);
            },
        }
        i = i + 1;
    }
    Ok(names)
}

fn push_dependencies(queue: &mut Vec<(String, Option<u32>)>, deps: &Vec<(String, Version)>)
    ensures
        final(queue)@.len() >= old(queue)@.len(),
{
    let mut d: usize = 0;
    while d < deps.len()
        invariant
            queue@.len() >= old(queue)@.len(),
        decreases deps@.len() - d,
    {
        queue.push((deps[d].0.clone(), Some(deps[d].1.versionHash)));
        d = d + 1;
    }
}

/// Chooses the mods to load: those named in the `active mods` list of
/// `activeList`, and then their dependencies, each at most once and in the
/// order met. A mod that is not installed, an installed one older than a
/// dependency asks for, and two packages of one mod are errors. Gives
/// back the package names of the chosen mods.
pub fn selectModulesToLoad(installed: &Vec<Mod>, activeList: &String) -> (r: Result<
    Vec<String>,
    String,
>)
    ensures
        r matches Ok(files) ==> from_installed(files@, installed@),
{
    let mut a: usize = 0;
    while a < installed.len()
        decreases installed@.len() - a,
    {
        let mut b: usize = a + 1;
        while b < installed.len()
            invariant
                a < installed@.len(),
            decreases installed@.len() - b,
        {
            if installed[a].description.name == installed[b].description.name {
                return Err("Mod has more than one package".to_string());
            }
            b = b + 1;
        }
        a = a + 1;
    }
    let names = match parse(activeList, active_names) {
        Ok(n) => n,
        Err(e) => {
            return Err(e);
        },
    };
    let mut queue: Vec<(String, Option<u32>)> = Vec::new();
    let mut k: usize = 0;
    while k < names.len()
        decreases names@.len() - k,
    {
        queue.push((names[k].clone(), None));
        k = k + 1;
    }
    let mut active: Vec<bool> = Vec::new();
    let mut i: usize = 0;
    while i < installed.len()
        invariant
            i <= installed@.len(),
            active@.len() == i,
        decreases installed@.len() - i,
    {
        active.push(false);
        i = i + 1;
    }
    let mut activated: Vec<String> = Vec::new();
    let mut head: usize = 0;
    while head < queue.len()
        invariant
            active@.len() == installed@.len(),
            head <= queue@.len(),
            from_installed(activated@, installed@),
        decreases waiting(active@), queue@.len() - head,
    {
        let name = queue[head].0.clone();
        let needed = queue[head].1;
        head = head + 1;
        let m = match find_mod(installed, &name) {
            Some(m) => m,
            None => {
                return Err("Mod has not been installed".to_string());
            },
        };
        if let Some(v) = needed {
            if v > installed[m].description.version.versionHash {
                return Err("Mod is out of date".to_string());
            }
        }
        if !active[m] {
            proof {
                lemma_waiting_update(active@, m as int);
            }
            active.set(m, true);
            let f = installed[m].fileName.clone();
            let ghost prev = activated@;
            activated.push(f);
            proof {
                assert(activated@[activated@.len() - 1]@ == installed@[m as int].fileName@);
                assert forall|k: int| 0 <= k < activated@.len() implies exists|i: int|
                    0 <= i < installed@.len() && (#[trigger] activated@[k])@ == installed@[i].fileName@ by {
                    if k == activated@.len() - 1 {
                        assert(activated@[k]@ == installed@[m as int].fileName@);
                    } else {
                        assert(activated@[k] == prev[k]);
                    }
                }
            }
            push_dependencies(&mut queue, &installed[m].description.dependencies);
        }
    }
    Ok(activated)
}

} // verus!
