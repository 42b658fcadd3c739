//! Which repository files are authored contract sources, and which are
//! automation sources to scan.
use vstd::prelude::*;

use crate::text::{chars_of, ends_with, ends_with_lit, equals_lit, last_index, last_index_of, slice_of, views};

verus! {

broadcast use vstd::string::group_string_axioms;

/// Directory names whose contents are generated, evidence, dependencies,
/// build output or temporary files.
pub open spec fn is_generated_name(n: Seq<char>) -> bool {
    ||| n == ".typespec-json-schema-validator"@
    ||| n == "artifacts"@
    ||| n == "build"@
    ||| n == "dist"@
    ||| n == "evidence"@
    ||| n == "generated"@
    ||| n == "node_modules"@
    ||| n == "out"@
    ||| n == "target"@
    ||| n == "tmp"@
    ||| n == "vendor"@
}

/// Some component of the path is a generated directory name.
pub open spec fn path_has_generated_component(p: Seq<Seq<char>>) -> bool {
    exists|k: int| 0 <= k < p.len() && is_generated_name(#[trigger] p[k])
}

/// The extension of a file name, as `Path::extension` gives it: the text
/// after the last `.`, unless there is no `.`, the only `.` leads the name,
/// or the name is `..`.
pub open spec fn extension(name: Seq<char>) -> Option<Seq<char>> {
    let d = last_index_of(name, '.');
    if name == ".."@ || d <= 0 {
        None
    } else {
        Some(name.skip(d + 1))
    }
}

/// An authored TypeSpec source: a `.tsp` file outside generated directories.
pub open spec fn is_authored_typespec(p: Seq<Seq<char>>) -> bool {
    p.len() > 0 && extension(p.last()) == Some("tsp"@) && !path_has_generated_component(p)
}

/// An authored JSON Schema source: a `*.schema.json` file that is not a
/// generated schema and lies outside generated directories.
pub open spec fn is_authored_schema(p: Seq<Seq<char>>) -> bool {
    &&& p.len() > 0
    &&& ends_with(p.last(), ".schema.json"@)
    &&& !ends_with(p.last(), ".generated.schema.json"@)
    &&& p.last() != "typespec.generated.schema.json"@
    &&& !path_has_generated_component(p)
}

/// The walk descends into every directory but `.git` and generated ones.
pub open spec fn should_descend(name: Seq<char>, is_dir: bool) -> bool {
    !is_dir || (name != ".git"@ && !is_generated_name(name))
}

/// The automation source extensions that the audit reads.
pub open spec fn is_source_extension(e: Seq<char>) -> bool {
    ||| e == "yml"@
    ||| e == "yaml"@
    ||| e == "sh"@
    ||| e == "bash"@
    ||| e == "mjs"@
    ||| e == "js"@
    ||| e == "ts"@
    ||| e == "py"@
}

/// A file that the audit scans for writes.
pub open spec fn is_source_file(p: Seq<Seq<char>>) -> bool {
    p.len() > 0 && match extension(p.last()) {
        Some(e) => is_source_extension(e),
        None => false,
    }
}

/// A `contracts.config.json` file.
pub open spec fn is_config_file(p: Seq<Seq<char>>) -> bool {
    p.len() > 0 && p.last() == "contracts.config.json"@
}

/// Whether `n` is a generated directory name.
pub fn is_generated_name_exec(n: &Vec<char>) -> (r: bool)
    ensures
        r == is_generated_name(n@),
{
    equals_lit(n, ".typespec-json-schema-validator") || equals_lit(n, "artifacts") || equals_lit(n, "build") || equals_lit(
        n,
        "dist",
    ) || equals_lit(n, "evidence") || equals_lit(n, "generated") || equals_lit(n, "node_modules") || equals_lit(n, "out") || equals_lit(
        n,
        "target",
    ) || equals_lit(n, "tmp") || equals_lit(n, "vendor")
}

/// Whether some component of `p` is a generated directory name.
pub fn path_has_generated_component_exec(p: &Vec<Vec<char>>) -> (r: bool)
    ensures
        r == path_has_generated_component(views(p@)),
{
    let mut i: usize = 0;
    while i < p.len()
        invariant
            i <= p.len(),
            forall|k: int| 0 <= k < i ==> !is_generated_name(#[trigger] views(p@)[k]),
        decreases p.len() - i,
    {
        if is_generated_name_exec(&p[i]) {
            assert(is_generated_name(views(p@)[i as int]));
            return true;
        }
        i = i + 1;
    }
    false
}

/// The extension of a file name.
pub fn extension_of(name: &Vec<char>) -> (r: Option<Vec<char>>)
    ensures
        match r {
            Some(e) => extension(name@) == Some(e@),
            None => extension(name@) is None,
        },
{
    if equals_lit(name, "..") {
        return None;
    }
    match last_index(name, '.') {
        None => None,
        Some(d) => {
            if d == 0 {
                None
            } else {
                let e = slice_of(name, d + 1, name.len());
                assert(e@ =~= name@.skip(d + 1));
                Some(e)
            }
        },
    }
}

/// Whether `p` is an authored TypeSpec source.
pub fn is_authored_typespec_exec(p: &Vec<Vec<char>>) -> (r: bool)
    ensures
        r == is_authored_typespec(views(p@)),
{
    if p.len() == 0 {
        return false;
    }
    assert(views(p@).last() == p@[p.len() - 1]@);
    match extension_of(&p[p.len() - 1]) {
        Some(e) => equals_lit(&e, "tsp") && !path_has_generated_component_exec(p),
        None => false,
    }
}

/// Whether `p` is an authored JSON Schema source.
pub fn is_authored_schema_exec(p: &Vec<Vec<char>>) -> (r: bool)
    ensures
        r == is_authored_schema(views(p@)),
{
    if p.len() == 0 {
        return false;
    }
    let name = &p[p.len() - 1];
    assert(views(p@).last() == name@);
    ends_with_lit(name, ".schema.json") && !ends_with_lit(name, ".generated.schema.json") && !equals_lit(
        name,
        "typespec.generated.schema.json",
    ) && !path_has_generated_component_exec(p)
}

/// Whether the walk descends into an entry named `name`.
pub fn should_descend_exec(name: &str, is_dir: bool) -> (r: bool)
    ensures
        r == should_descend(name@, is_dir),
{
    if !is_dir {
        return true;
    }
    let n = chars_of(name);
    !equals_lit(&n, ".git") && !is_generated_name_exec(&n)
}

/// Whether `p` is an automation source file.
pub fn is_source_file_exec(p: &Vec<Vec<char>>) -> (r: bool)
    ensures
        r == is_source_file(views(p@)),
{
    if p.len() == 0 {
        return false;
    }
    assert(views(p@).last() == p@[p.len() - 1]@);
    match extension_of(&p[p.len() - 1]) {
        Some(e) => equals_lit(&e, "yml") || equals_lit(&e, "yaml") || equals_lit(&e, "sh") || equals_lit(&e, "bash") || equals_lit(
            &e,
            "mjs",
        ) || equals_lit(&e, "js") || equals_lit(&e, "ts") || equals_lit(&e, "py"),
        None => false,
    }
}

/// Whether `p` is a `contracts.config.json` file.
pub fn is_config_file_exec(p: &Vec<Vec<char>>) -> (r: bool)
    ensures
        r == is_config_file(views(p@)),
{
    if p.len() == 0 {
        return false;
    }
    assert(views(p@).last() == p@[p.len() - 1]@);
    equals_lit(&p[p.len() - 1], "contracts.config.json")
}

} // verus!
