//! What is written for a project: the layout of a new one, the names and
//! lists that packaging needs, and the messages about its tasks.

use vstd::prelude::*;
use vstd::string::StringExecFns;
use crate::text::{join, join_strings, str_eq, strs, texts};

verus! {

/// Where the sources of a new project of the language go.
pub open spec fn source_dir_text(lang: Seq<char>) -> Seq<char> {
    if lang == "java"@ {
        "src/main/java"@
    } else if lang == "kotlin"@ {
        "src/main/kotlin"@
    } else {
        "src"@
    }
}

/// Where the tests of a new project of the language go.
pub open spec fn test_dir_text(lang: Seq<char>) -> Seq<char> {
    if lang == "java"@ {
        "src/test/java"@
    } else if lang == "kotlin"@ {
        "src/test/kotlin"@
    } else {
        "tests"@
    }
}

/// Where the sources of a new project of the language go.
pub fn source_dir_for(lang: &str) -> (dir: &'static str)
    ensures
        dir@ == source_dir_text(lang@),
{
    if str_eq(lang, "java") {
        "src/main/java"
    } else if str_eq(lang, "kotlin") {
        "src/main/kotlin"
    } else {
        "src"
    }
}

/// Where the tests of a new project of the language go.
pub fn test_dir_for(lang: &str) -> (dir: &'static str)
    ensures
        dir@ == test_dir_text(lang@),
{
    if str_eq(lang, "java") {
        "src/test/java"
    } else if str_eq(lang, "kotlin") {
        "src/test/kotlin"
    } else {
        "tests"
    }
}

/// The name of the example source file of a language that has one.
pub open spec fn example_name_text(lang: Seq<char>) -> Option<Seq<char>> {
    if lang == "java"@ {
        Some("Main.java"@)
    } else if lang == "kotlin"@ {
        Some("Main.kt"@)
    } else if lang == "python"@ {
        Some("main.py"@)
    } else {
        None
    }
}

/// The name of the example test file of a language that has one.
pub open spec fn test_name_text(lang: Seq<char>) -> Option<Seq<char>> {
    if lang == "java"@ {
        Some("MainTest.java"@)
    } else if lang == "kotlin"@ {
        Some("MainTest.kt"@)
    } else if lang == "python"@ {
        Some("test_main.py"@)
    } else {
        None
    }
}

/// The name of the example source file that a new project gets.
pub fn example_file_name(lang: &str) -> (name: Option<&'static str>)
    ensures
        match name {
            Some(n) => example_name_text(lang@) == Some(n@),
            None => example_name_text(lang@) is None,
        },
{
    if str_eq(lang, "java") {
        Some("Main.java")
    } else if str_eq(lang, "kotlin") {
        Some("Main.kt")
    } else if str_eq(lang, "python") {
        Some("main.py")
    } else {
        None
    }
}

/// The name of the example test file that a new project gets.
pub fn test_file_name(lang: &str) -> (name: Option<&'static str>)
    ensures
        match name {
            Some(n) => test_name_text(lang@) == Some(n@),
            None => test_name_text(lang@) is None,
        },
{
    if str_eq(lang, "java") {
        Some("MainTest.java")
    } else if str_eq(lang, "kotlin") {
        Some("MainTest.kt")
    } else if str_eq(lang, "python") {
        Some("test_main.py")
    } else {
        None
    }
}

/// The name under which a project is packaged.
pub fn package_name(name: &str, version: &str, lang: &str) -> (r: String)
    ensures
        r@ == name@ + "-"@ + version@ + "-"@ + lang@,
{
    let mut r = String::from_str(name);
    r.append("-");
    r.append(version);
    r.append("-");
    r.append(lang);
    r
}

/// The lines of a requirements file: name, two equal signs, version.
pub open spec fn requirement_lines(deps: Seq<(String, String)>) -> Seq<Seq<char>> {
    Seq::new(deps.len(), |i: int| deps[i].0@ + "=="@ + deps[i].1@)
}

/// The text of a requirements file for the dependencies: one line for
/// each, with line feeds between.
pub fn requirements(deps: &Vec<(String, String)>) -> (r: String)
    ensures
        r@ == join(requirement_lines(deps@), "\n"@),
{
    let mut lines: Vec<String> = Vec::new();
    let mut i: usize = 0;
    while i < deps.len()
        invariant
            i <= deps@.len(),
            lines@.len() == i,
            forall|k: int| 0 <= k < i ==> (#[trigger] lines@[k])@ == deps@[k].0@ + "=="@ + deps@[k].1@,
        decreases deps.len() - i,
    {
        let mut line = deps[i].0.clone();
        line.append("==");
        line.append(deps[i].1.as_str());
        lines.push(line);
        i = i + 1;
    }
    assert(texts(lines@) =~= requirement_lines(deps@));
    join_strings(&lines, "\n")
}

/// The entries of a class path with the separator of the platform between.
pub fn classpath(entries: &Vec<String>, separator: &str) -> (r: String)
    ensures
        r@ == join(texts(entries@), separator@),
{
    join_strings(entries, separator)
}

/// The manifest of a JAR with a main class.
pub fn jar_manifest(main_class: &str) -> (r: String)
    ensures
        r@ == "Manifest-Version: 1.0\nMain-Class: "@ + main_class@ + "\nBuilt-By: FORGE\n"@,
{
    let mut r = String::from_str("Manifest-Version: 1.0\nMain-Class: ");
    r.append(main_class);
    r.append("\nBuilt-By: FORGE\n");
    r
}

/// The message for a task that the project does not define.
pub open spec fn task_not_found_text(name: Seq<char>, available: Seq<Seq<char>>) -> Seq<char> {
    if available.len() == 0 {
        "No hay tareas definidas en forge.toml. Agrega una sección [tasks."@ + name + "]"@
    } else {
        "Tarea '"@ + name + "' no encontrada. Disponibles: "@ + join(available, ", "@)
    }
}

/// The message for a task that the project does not define: it names the
/// tasks that there are, or tells how to define one where there is none.
pub fn task_not_found(name: &str, available: &Vec<String>) -> (r: String)
    ensures
        r@ == task_not_found_text(name@, texts(available@)),
{
    if available.len() == 0 {
        assert(texts(available@).len() == 0);
        let mut r = String::from_str("No hay tareas definidas en forge.toml. Agrega una sección [tasks.");
        r.append(name);
        r.append("]");
        r
    } else {
        assert(texts(available@).len() > 0);
        let mut r = String::from_str("Tarea '");
        r.append(name);
        r.append("' no encontrada. Disponibles: ");
        r.append(join_strings(available, ", ").as_str());
        r
    }
}

/// Whether files of this extension count in the statistics of a project:
/// the sources of its language and the common text formats.
pub open spec fn is_counted(ext: Seq<char>, sources: Seq<Seq<char>>) -> bool {
    sources.contains(ext) || ext == "toml"@ || ext == "xml"@ || ext == "json"@ || ext == "yaml"@ || ext == "yml"@
        || ext == "md"@ || ext == "txt"@
}

/// Whether `ext` is among `list`.
pub fn has_extension(ext: &str, list: &[&str]) -> (r: bool)
    ensures
        r == strs(list@).contains(ext@),
{
    let mut i: usize = 0;
    while i < list.len()
        invariant
            i <= list@.len(),
            forall|k: int| 0 <= k < i ==> strs(list@)[k] != ext@,
        decreases list.len() - i,
    {
        if str_eq(list[i], ext) {
            assert(strs(list@)[i as int] == ext@);
            return true;
        }
        i = i + 1;
    }
    false
}

/// Whether files of this extension count in the statistics of a project.
pub fn counts_in_stats(ext: &str, sources: &[&str]) -> (r: bool)
    ensures
        r == is_counted(ext@, strs(sources@)),
{
    has_extension(ext, sources) || str_eq(ext, "toml") || str_eq(ext, "xml") || str_eq(ext, "json") || str_eq(
        ext,
        "yaml",
    ) || str_eq(ext, "yml") || str_eq(ext, "md") || str_eq(ext, "txt")
}

} // verus!
