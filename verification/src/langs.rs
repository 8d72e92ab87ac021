//! What the build core knows of the languages it builds: the extensions of
//! their sources and the command lines of their tools. Running the tools is
//! the caller's part.

use vstd::prelude::*;
use vstd::string::StringExecFns;
use crate::manifest::matches_at;
use crate::text::{chars_of, join, join_strings, str_eq, strs, texts};

verus! {

/// The command lines of the Java tools.
#[derive(Debug, Clone, Copy)]
pub struct JavaModule;

/// The command lines of the Kotlin tools.
#[derive(Debug, Clone, Copy)]
pub struct KotlinModule;

/// The command lines of the Python tools.
#[derive(Debug, Clone, Copy)]
pub struct PythonModule;

/// The extensions of the source files of a language, as texts.
pub open spec fn extension_texts(lang: Seq<char>) -> Seq<Seq<char>> {
    if lang == "java"@ {
        seq!["java"@]
    } else if lang == "kotlin"@ {
        seq!["kt"@, "kts"@]
    } else if lang == "python"@ {
        seq!["py"@]
    } else {
        Seq::empty()
    }
}

/// The extensions of the files that the incremental cache watches for a
/// language; none for a language that is not built, which watches all files.
pub fn extensions_for_lang(lang: &str) -> (exts: Vec<&'static str>)
    ensures
        strs(exts@) == extension_texts(lang@),
{
    let mut exts: Vec<&'static str> = Vec::new();
    if str_eq(lang, "java") {
        exts.push("java");
    } else if str_eq(lang, "kotlin") {
        exts.push("kt");
        exts.push("kts");
    } else if str_eq(lang, "python") {
        exts.push("py");
    }
    exts
}

/// The texts that are not empty, in their order.
pub open spec fn without_empty(parts: Seq<Seq<char>>) -> Seq<Seq<char>>
    decreases parts.len(),
{
    if parts.len() == 0 {
        Seq::empty()
    } else if parts.last().len() == 0 {
        without_empty(parts.drop_last())
    } else {
        without_empty(parts.drop_last()).push(parts.last())
    }
}

/// Appends a copy of `s`.
fn push_text(v: &mut Vec<String>, s: &str)
    ensures
        texts(final(v)@) == texts(old(v)@).push(s@),
{
    let ghost before = texts(v@);
    v.push(String::from_str(s));
}

/// Appends copies of all of `more`.
fn push_all(v: &mut Vec<String>, more: &Vec<String>)
    ensures
        texts(final(v)@) == texts(old(v)@) + texts(more@),
{
    let ghost before = texts(v@);
    let mut i: usize = 0;
    while i < more.len()
        invariant
            i <= more@.len(),
            texts(v@) == before + texts(more@).take(i as int),
        decreases more.len() - i,
    {
        let ghost so_far = texts(v@);
        v.push(more[i].clone());
        proof {
            assert(texts(v@) =~= so_far.push(more@[i as int]@));
        }
        i = i + 1;
    }
}

/// The entries of a class path that are not empty, with the separator of
/// the platform between.
pub fn classpath_of(entries: &Vec<String>, separator: &str) -> (r: String)
    ensures
        r@ == join(without_empty(texts(entries@)), separator@),
{
    let mut kept: Vec<String> = Vec::new();
    let mut i: usize = 0;
    while i < entries.len()
        invariant
            i <= entries@.len(),
            texts(kept@) == without_empty(texts(entries@).take(i as int)),
        decreases entries.len() - i,
    {
        proof {
            assert(texts(entries@).take(i + 1).drop_last() =~= texts(entries@).take(i as int));
        }
        if !entries[i].as_str().is_empty() {
            push_text(&mut kept, entries[i].as_str());
        }
        i = i + 1;
    }
    assert(texts(entries@).take(entries@.len() as int) =~= texts(entries@));
    join_strings(&kept, separator)
}

/// The option that names the class path, where there is one.
pub open spec fn class_path_option(classpath: Seq<char>) -> Seq<Seq<char>> {
    if classpath.len() == 0 {
        Seq::empty()
    } else {
        seq!["-cp"@, classpath]
    }
}

/// The option that names the manifest, where there is one.
pub open spec fn manifest_option(manifest: Option<Seq<char>>) -> Seq<Seq<char>> {
    match manifest {
        Some(m) => seq!["--manifest"@, m],
        None => Seq::empty(),
    }
}

/// The arguments of `jar` that pack the classes below `classes_dir` into
/// `jar_path`, with the manifest at `manifest` where one is given.
pub fn jar_args(jar_path: &str, manifest: Option<&str>, classes_dir: &str) -> (args: Vec<String>)
    ensures
        texts(args@) == seq!["cf"@, jar_path@] + manifest_option(
            match manifest {
                Some(m) => Some(m@),
                None => None,
            },
        ) + seq!["-C"@, classes_dir@, "."@],
{
    let mut args: Vec<String> = Vec::new();
    push_text(&mut args, "cf");
    push_text(&mut args, jar_path);
    match manifest {
        Some(m) => {
            push_text(&mut args, "--manifest");
            push_text(&mut args, m);
        },
        None => {},
    }
    push_text(&mut args, "-C");
    push_text(&mut args, classes_dir);
    push_text(&mut args, ".");
    assert(texts(args@) =~= seq!["cf"@, jar_path@] + manifest_option(
        match manifest {
            Some(m) => Some(m@),
            None => None,
        },
    ) + seq!["-C"@, classes_dir@, "."@]);
    args
}

/// The arguments of `java` that run `main_class` on the class path.
pub fn run_args(classpath: &str, main_class: &str) -> (args: Vec<String>)
    ensures
        texts(args@) == seq!["-cp"@, classpath@, main_class@],
{
    let mut args: Vec<String> = Vec::new();
    push_text(&mut args, "-cp");
    push_text(&mut args, classpath);
    push_text(&mut args, main_class);
    args
}

/// The arguments of `java` that run the tests on the class path with the
/// JUnit console at `junit_jar`.
pub fn junit_args(junit_jar: &str, classpath: &str) -> (args: Vec<String>)
    ensures
        texts(args@) == seq![
            "-jar"@,
            junit_jar@,
            "--class-path"@,
            classpath@,
            "--scan-class-path"@,
            "--details=tree"@,
            "--disable-banner"@,
        ],
{
    let mut args: Vec<String> = Vec::new();
    push_text(&mut args, "-jar");
    push_text(&mut args, junit_jar);
    push_text(&mut args, "--class-path");
    push_text(&mut args, classpath);
    push_text(&mut args, "--scan-class-path");
    push_text(&mut args, "--details=tree");
    push_text(&mut args, "--disable-banner");
    assert(texts(args@) =~= seq![
        "-jar"@,
        junit_jar@,
        "--class-path"@,
        classpath@,
        "--scan-class-path"@,
        "--details=tree"@,
        "--disable-banner"@,
    ]);
    args
}

impl JavaModule {
    /// The arguments of `javac` that compile `files` into `output_dir` for
    /// the release `target`; the class path is named only where it is not
    /// empty.
    pub fn compile_args(output_dir: &str, target: &str, classpath: &str, files: &Vec<String>) -> (args: Vec<String>)
        ensures
            texts(args@) == seq!["-d"@, output_dir@, "--release"@, target@] + class_path_option(classpath@) + texts(
                files@,
            ),
    {
        let mut args: Vec<String> = Vec::new();
        push_text(&mut args, "-d");
        push_text(&mut args, output_dir);
        push_text(&mut args, "--release");
        push_text(&mut args, target);
        if !classpath.is_empty() {
            push_text(&mut args, "-cp");
            push_text(&mut args, classpath);
        }
        let ghost head = texts(args@);
        push_all(&mut args, files);
        args
    }

    /// The arguments of `javac` that compile the test `files` into
    /// `output_dir`; the class path is always named.
    pub fn test_compile_args(output_dir: &str, target: &str, classpath: &str, files: &Vec<String>) -> (args: Vec<
        String,
    >)
        ensures
            texts(args@) == seq!["-d"@, output_dir@, "--release"@, target@, "-cp"@, classpath@] + texts(files@),
    {
        let mut args: Vec<String> = Vec::new();
        push_text(&mut args, "-d");
        push_text(&mut args, output_dir);
        push_text(&mut args, "--release");
        push_text(&mut args, target);
        push_text(&mut args, "-cp");
        push_text(&mut args, classpath);
        let ghost head = texts(args@);
        push_all(&mut args, files);
        args
    }
}

/// Whether a file name is that of a JAR of the Kotlin standard library.
pub open spec fn is_stdlib_name(name: Seq<char>) -> bool {
    let prefix = "kotlin-stdlib"@;
    let suffix = ".jar"@;
    &&& name.len() >= prefix.len()
    &&& name.take(prefix.len() as int) == prefix
    &&& name.len() >= suffix.len()
    &&& name.skip(name.len() - suffix.len()) == suffix
}

impl KotlinModule {
    /// The arguments of `kotlinc` that compile `files` into `output_dir`
    /// for the JVM `jvm_target`; the class path is named only where it is
    /// not empty.
    pub fn compile_args(output_dir: &str, jvm_target: &str, classpath: &str, files: &Vec<String>) -> (args: Vec<
        String,
    >)
        ensures
            texts(args@) == seq!["-d"@, output_dir@, "-jvm-target"@, jvm_target@] + class_path_option(classpath@)
                + texts(files@),
    {
        let mut args: Vec<String> = Vec::new();
        push_text(&mut args, "-d");
        push_text(&mut args, output_dir);
        push_text(&mut args, "-jvm-target");
        push_text(&mut args, jvm_target);
        if !classpath.is_empty() {
            push_text(&mut args, "-cp");
            push_text(&mut args, classpath);
        }
        let ghost head = texts(args@);
        push_all(&mut args, files);
        args
    }

    /// The arguments of `kotlinc` that compile the test `files` into
    /// `output_dir` with the runtime included.
    pub fn test_compile_args(output_dir: &str, jvm_target: &str, classpath: &str, files: &Vec<String>) -> (args:
        Vec<String>)
        ensures
            texts(args@) == seq![
                "-d"@,
                output_dir@,
                "-jvm-target"@,
                jvm_target@,
                "-include-runtime"@,
                "-cp"@,
                classpath@,
            ] + texts(files@),
    {
        let mut args: Vec<String> = Vec::new();
        push_text(&mut args, "-d");
        push_text(&mut args, output_dir);
        push_text(&mut args, "-jvm-target");
        push_text(&mut args, jvm_target);
        push_text(&mut args, "-include-runtime");
        push_text(&mut args, "-cp");
        push_text(&mut args, classpath);
        let ghost head = texts(args@);
        assert(head =~= seq![
            "-d"@,
            output_dir@,
            "-jvm-target"@,
            jvm_target@,
            "-include-runtime"@,
            "-cp"@,
            classpath@,
        ]);
        push_all(&mut args, files);
        args
    }

    /// Whether a file name is that of a JAR of the Kotlin standard library:
    /// it starts with "kotlin-stdlib" and ends with ".jar".
    pub fn is_stdlib_jar(name: &str) -> (r: bool)
        ensures
            r == is_stdlib_name(name@),
    {
        let chars = chars_of(name);
        let prefix = chars_of("kotlin-stdlib");
        let suffix = chars_of(".jar");
        let n = chars.len();
        if n < prefix.len() || n < suffix.len() {
            return false;
        }
        matches_at(&chars, &prefix, 0) && matches_at(&chars, &suffix, n - suffix.len())
    }
}

impl PythonModule {
    /// The arguments of Python that create the virtual environment.
    pub fn venv_args(venv_dir: &str) -> (args: Vec<String>)
        ensures
            texts(args@) == seq!["-m"@, "venv"@, venv_dir@],
    {
        let mut args: Vec<String> = Vec::new();
        push_text(&mut args, "-m");
        push_text(&mut args, "venv");
        push_text(&mut args, venv_dir);
        args
    }

    /// The arguments of pip that install the requirements.
    pub fn install_args(requirements: &Vec<String>) -> (args: Vec<String>)
        ensures
            texts(args@) == seq!["install"@] + texts(requirements@),
    {
        let mut args: Vec<String> = Vec::new();
        push_text(&mut args, "install");
        push_all(&mut args, requirements);
        args
    }

    /// The arguments of Python that check the syntax of `target`.
    pub fn check_args(target: &str) -> (args: Vec<String>)
        ensures
            texts(args@) == seq!["-m"@, "py_compile"@, target@],
    {
        let mut args: Vec<String> = Vec::new();
        push_text(&mut args, "-m");
        push_text(&mut args, "py_compile");
        push_text(&mut args, target);
        args
    }

    /// The arguments of Python that run the tests with pytest.
    pub fn pytest_args() -> (args: Vec<String>)
        ensures
            texts(args@) == seq!["-m"@, "pytest"@, "tests/"@],
    {
        let mut args: Vec<String> = Vec::new();
        push_text(&mut args, "-m");
        push_text(&mut args, "pytest");
        push_text(&mut args, "tests/");
        args
    }

    /// The arguments of Python that run the tests with unittest, which is
    /// tried when pytest fails.
    pub fn unittest_args() -> (args: Vec<String>)
        ensures
            texts(args@) == seq!["-m"@, "unittest"@, "discover"@, "-v"@],
    {
        let mut args: Vec<String> = Vec::new();
        push_text(&mut args, "-m");
        push_text(&mut args, "unittest");
        push_text(&mut args, "discover");
        push_text(&mut args, "-v");
        args
    }
}

} // verus!
