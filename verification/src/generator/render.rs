//! The two kinds of generated file: the listing of all modules, and the file
//! that declares the modules of one pattern family.

use crate::generator::module::ModuleView;
use crate::generator::modules::{GroupView, Modules};
use crate::generator::output::Output;
use vstd::prelude::*;
use vstd::string::StringExecFns;

verus! {

/// The lines with which the listing begins: title, versions, and the heading
/// of the families.
pub open spec fn header() -> Seq<Seq<char>> {
    seq![
        "# Rust Design Pattern ( ver 1 )"@,
        "## Versions"@,
        "- [ver 1](https://github.com/suzuki-hoge/rust-design-pattern/tree/master)"@,
        "## Implementations"@,
    ]
}

/// The heading of one family in the listing.
pub open spec fn heading(pattern: Seq<char>) -> Seq<char> {
    "### "@ + pattern
}

/// The line of one module in the listing: its name, linked to its path.
pub open spec fn link(module: ModuleView) -> Seq<char> {
    "- ["@ + module.name + "]("@ + module.path + ")"@
}

/// The lines of one family in the listing: its heading, then its modules.
pub open spec fn section(group: GroupView) -> Seq<Seq<char>> {
    seq![heading(group.pattern)] + group.modules.map_values(|module: ModuleView| link(module))
}

/// The sections of `groups`, one after another.
pub open spec fn sections(groups: Seq<GroupView>) -> Seq<Seq<char>>
    decreases groups.len(),
{
    if groups.len() == 0 {
        Seq::empty()
    } else {
        sections(groups.drop_last()) + section(groups.last())
    }
}

/// The lines of the listing of `groups`.
pub open spec fn readme(groups: Seq<GroupView>) -> Seq<Seq<char>> {
    header() + sections(groups)
}

/// The path of the listing.
pub open spec fn readme_path() -> Seq<char> {
    "README.md"@
}

/// The line that declares one module in the file of its family.
pub open spec fn declaration(module: ModuleView) -> Seq<char> {
    "declare submodule "@ + module.name + ";"@
}

/// The lines of the file of one family: a declaration for each module.
pub open spec fn declarations(group: GroupView) -> Seq<Seq<char>> {
    group.modules.map_values(|module: ModuleView| declaration(module))
}

/// The path of the file of the family `pattern`.
pub open spec fn mod_path(pattern: Seq<char>) -> Seq<char> {
    "src/"@ + pattern + ".rs"@
}

/// What is generated depends on nothing but the grouped modules: the same
/// modules give the same listing and, family by family, the same file at the
/// same path.
pub proof fn lemma_same_modules_same_files(a: Modules, b: Modules)
    requires
        a@ == b@,
    ensures
        readme(a@) == readme(b@),
        forall|i: int|
            0 <= i < a@.len() ==> mod_path(#[trigger] a@[i].pattern) == mod_path(b@[i].pattern),
        forall|i: int| 0 <= i < a@.len() ==> declarations(#[trigger] a@[i]) == declarations(b@[i]),
{
}

/// The listing of all modules: where it is written, and what.
pub fn update_readme(modules: &Modules) -> (file: (String, Output))
    ensures
        file.0@ == readme_path(),
        file.1@ == readme(modules@),
{
    let mut readme = Output::new();
    readme.add("# Rust Design Pattern ( ver 1 )");
    readme.add("## Versions");
    readme.add("- [ver 1](https://github.com/suzuki-hoge/rust-design-pattern/tree/master)");
    readme.add("## Implementations");
    assert(readme@ == header());

    let count = modules.len();
    let mut i: usize = 0;
    proof {
        assert(modules@.take(0) == Seq::<GroupView>::empty());
    }
    while i < count
        invariant
            i <= count,
            count == modules@.len(),
            readme@ == header() + sections(modules@.take(i as int)),
        decreases count - i,
    {
        let ghost group = modules@[i as int];
        let ghost above = readme@;
        let mut line = String::from_str("### ");
        line.append(modules.pattern(i));
        readme.add(line.as_str());

        let members = modules.members(i);
        let mut k: usize = 0;
        proof {
            assert(group.modules.take(0).map_values(|module: ModuleView| link(module)) == Seq::<
                Seq<char>,
            >::empty());
        }
        while k < members.len()
            invariant
                k <= members.len(),
                members.deep_view() == group.modules,
                readme@ == above + seq![heading(group.pattern)] + group.modules.take(
                    k as int,
                ).map_values(|module: ModuleView| link(module)),
            decreases members.len() - k,
        {
            let module = &members[k];
            let mut line = String::from_str("- [");
            line.append(module.name());
            line.append("](");
            line.append(module.path());
            line.append(")");
            proof {
                assert(module@ == group.modules[k as int]);
                assert(line@ == link(module@));
                assert(group.modules.take(k + 1).map_values(|module: ModuleView| link(module))
                    == group.modules.take(k as int).map_values(|module: ModuleView| link(module)).push(
                    link(module@),
                ));
            }
            readme.add(line.as_str());
            k = k + 1;
        }
        proof {
            assert(group.modules.take(members.len() as int) == group.modules);
            assert(modules@.take(i + 1).drop_last() == modules@.take(i as int));
            assert(modules@.take(i + 1).last() == group);
            assert(readme@ == header() + (sections(modules@.take(i as int)) + section(group)));
        }
        i = i + 1;
    }
    proof {
        assert(modules@.take(count as int) == modules@);
    }
    (String::from_str("README.md"), readme)
}

/// The file of each family, in the order of the families: where it is
/// written, and what.
pub fn update_mods(modules: &Modules) -> (files: Vec<(String, Output)>)
    ensures
        files.len() == modules@.len(),
        forall|i: int|
            0 <= i < files.len() ==> {
                &&& (#[trigger] files[i]).0@ == mod_path(modules@[i].pattern)
                &&& files[i].1@ == declarations(modules@[i])
            },
{
    let mut files: Vec<(String, Output)> = Vec::new();
    let count = modules.len();
    let mut i: usize = 0;
    while i < count
        invariant
            i <= count,
            count == modules@.len(),
            files.len() == i,
            forall|j: int|
                0 <= j < i ==> {
                    &&& (#[trigger] files[j]).0@ == mod_path(modules@[j].pattern)
                    &&& files[j].1@ == declarations(modules@[j])
                },
        decreases count - i,
    {
        let ghost group = modules@[i as int];
        let mut deps = Output::new();
        let members = modules.members(i);
        let mut k: usize = 0;
        proof {
            assert(group.modules.take(0).map_values(|module: ModuleView| declaration(module))
                == Seq::<Seq<char>>::empty());
        }
        while k < members.len()
            invariant
                k <= members.len(),
                members.deep_view() == group.modules,
                deps@ == group.modules.take(k as int).map_values(
                    |module: ModuleView| declaration(module),
                ),
            decreases members.len() - k,
        {
            let module = &members[k];
            let mut line = String::from_str("declare submodule ");
            line.append(module.name());
            line.append(";");
            proof {
                assert(module@ == group.modules[k as int]);
                assert(group.modules.take(k + 1).map_values(
                    |module: ModuleView| declaration(module),
                ) == group.modules.take(k as int).map_values(
                    |module: ModuleView| declaration(module),
                ).push(declaration(module@)));
            }
            deps.add(line.as_str());
            k = k + 1;
        }
        proof {
            assert(group.modules.take(members.len() as int) == group.modules);
        }
        let mut path = String::from_str("src/");
        path.append(modules.pattern(i));
        path.append(".rs");
        files.push((path, deps));
        i = i + 1;
    }
    files
}

} // verus!
