use forge::project::{
    classpath, counts_in_stats, example_file_name, has_extension, jar_manifest, package_name, requirements,
    source_dir_for, task_not_found, test_dir_for, test_file_name,
};
use forge::langs::{classpath_of, jar_args, junit_args, run_args, JavaModule, KotlinModule, PythonModule};
use forge::text::join_strings;

fn strings(names: &[&str]) -> Vec<String> {
    names.iter().map(|s| s.to_string()).collect()
}

#[test]
fn layout_of_a_new_project() {
    assert_eq!(source_dir_for("java"), "src/main/java");
    assert_eq!(source_dir_for("kotlin"), "src/main/kotlin");
    assert_eq!(source_dir_for("python"), "src");
    assert_eq!(source_dir_for("go"), "src");
    assert_eq!(test_dir_for("java"), "src/test/java");
    assert_eq!(test_dir_for("kotlin"), "src/test/kotlin");
    assert_eq!(test_dir_for("python"), "tests");
    assert_eq!(test_dir_for("go"), "tests");
    assert_eq!(example_file_name("java"), Some("Main.java"));
    assert_eq!(example_file_name("kotlin"), Some("Main.kt"));
    assert_eq!(example_file_name("python"), Some("main.py"));
    assert_eq!(example_file_name("go"), None);
    assert_eq!(test_file_name("java"), Some("MainTest.java"));
    assert_eq!(test_file_name("kotlin"), Some("MainTest.kt"));
    assert_eq!(test_file_name("python"), Some("test_main.py"));
    assert_eq!(test_file_name("go"), None);
}

#[test]
fn strings_are_joined_with_the_separator_between() {
    assert_eq!(join_strings(&strings(&[]), ", "), "");
    assert_eq!(join_strings(&strings(&["a"]), ", "), "a");
    assert_eq!(join_strings(&strings(&["a", "b", "c"]), ", "), "a, b, c");
    assert_eq!(join_strings(&strings(&["", ""]), ":"), ":");
    assert_eq!(classpath(&strings(&["build/classes", "deps/a.jar", "deps/b.jar"]), ":"), "build/classes:deps/a.jar:deps/b.jar");
    assert_eq!(classpath(&strings(&["a.jar", "b.jar"]), ";"), "a.jar;b.jar");
}

#[test]
fn packaging_names_and_lists() {
    assert_eq!(package_name("mi-app", "1.0.0", "java"), "mi-app-1.0.0-java");
    assert_eq!(
        requirements(&vec![("flask".to_string(), "3.0.0".to_string()), ("requests".to_string(), "*".to_string())]),
        "flask==3.0.0\nrequests==*"
    );
    assert_eq!(requirements(&vec![]), "");
    assert_eq!(jar_manifest("com.ejemplo.Main"), "Manifest-Version: 1.0\nMain-Class: com.ejemplo.Main\nBuilt-By: FORGE\n");
}

#[test]
fn message_for_a_task_that_is_not_defined() {
    assert_eq!(
        task_not_found("deploy", &strings(&[])),
        "No hay tareas definidas en forge.toml. Agrega una sección [tasks.deploy]"
    );
    assert_eq!(
        task_not_found("deploy", &strings(&["lint", "docs"])),
        "Tarea 'deploy' no encontrada. Disponibles: lint, docs"
    );
}

#[test]
fn extensions_that_count_in_statistics() {
    assert!(counts_in_stats("java", &["java"]));
    assert!(counts_in_stats("kts", &["kt", "kts"]));
    for ext in ["toml", "xml", "json", "yaml", "yml", "md", "txt"] {
        assert!(counts_in_stats(ext, &[]));
    }
    assert!(!counts_in_stats("java", &["py"]));
    assert!(!counts_in_stats("", &["py"]));
    assert!(!counts_in_stats("TXT", &[]));
    assert!(has_extension("py", &["py"]));
    assert!(!has_extension("py", &[]));
}

#[test]
fn class_path_leaves_empty_entries_out() {
    assert_eq!(classpath_of(&strings(&["build/classes", "", "deps/a.jar", ""]), ":"), "build/classes:deps/a.jar");
    assert_eq!(classpath_of(&strings(&["", ""]), ":"), "");
    assert_eq!(classpath_of(&strings(&[]), ";"), "");
    assert_eq!(classpath_of(&strings(&["a", "b"]), ";"), "a;b");
}

#[test]
fn command_lines_of_the_java_tools() {
    let files = strings(&["src/A.java", "src/B.java"]);
    assert_eq!(
        JavaModule::compile_args("build/classes", "21", "deps/a.jar", &files),
        strings(&["-d", "build/classes", "--release", "21", "-cp", "deps/a.jar", "src/A.java", "src/B.java"])
    );
    assert_eq!(
        JavaModule::compile_args("build/classes", "17", "", &files),
        strings(&["-d", "build/classes", "--release", "17", "src/A.java", "src/B.java"])
    );
    assert_eq!(
        JavaModule::test_compile_args("build/test-classes", "17", "", &strings(&["T.java"])),
        strings(&["-d", "build/test-classes", "--release", "17", "-cp", "", "T.java"])
    );
    assert_eq!(run_args("build/classes:deps/a.jar", "com.Main"), strings(&["-cp", "build/classes:deps/a.jar", "com.Main"]));
    assert_eq!(
        junit_args("junit.jar", "cp"),
        strings(&["-jar", "junit.jar", "--class-path", "cp", "--scan-class-path", "--details=tree", "--disable-banner"])
    );
    assert_eq!(
        jar_args("build/app.jar", Some("build/META-INF/MANIFEST.MF"), "build/classes"),
        strings(&["cf", "build/app.jar", "--manifest", "build/META-INF/MANIFEST.MF", "-C", "build/classes", "."])
    );
    assert_eq!(jar_args("build/app.jar", None, "build/classes"), strings(&["cf", "build/app.jar", "-C", "build/classes", "."]));
}

#[test]
fn command_lines_of_the_kotlin_tools() {
    let files = strings(&["src/Main.kt"]);
    assert_eq!(
        KotlinModule::compile_args("build/classes", "17", "stdlib.jar:deps/a.jar", &files),
        strings(&["-d", "build/classes", "-jvm-target", "17", "-cp", "stdlib.jar:deps/a.jar", "src/Main.kt"])
    );
    assert_eq!(
        KotlinModule::compile_args("build/classes", "17", "", &files),
        strings(&["-d", "build/classes", "-jvm-target", "17", "src/Main.kt"])
    );
    assert_eq!(
        KotlinModule::test_compile_args("build/test-classes", "21", "cp", &files),
        strings(&["-d", "build/test-classes", "-jvm-target", "21", "-include-runtime", "-cp", "cp", "src/Main.kt"])
    );
    assert!(KotlinModule::is_stdlib_jar("kotlin-stdlib.jar"));
    assert!(KotlinModule::is_stdlib_jar("kotlin-stdlib-jdk8-1.9.0.jar"));
    assert!(!KotlinModule::is_stdlib_jar("kotlin-stdlib.jar.sha1"));
    assert!(!KotlinModule::is_stdlib_jar("kotlin-reflect.jar"));
    assert!(!KotlinModule::is_stdlib_jar("kotlin-stdlib"));
    assert!(!KotlinModule::is_stdlib_jar(".jar"));
    assert!(!KotlinModule::is_stdlib_jar(""));
}

#[test]
fn command_lines_of_the_python_tools() {
    assert_eq!(PythonModule::venv_args(".forge/venv"), strings(&["-m", "venv", ".forge/venv"]));
    assert_eq!(
        PythonModule::install_args(&strings(&["flask==3.0.0", "requests"])),
        strings(&["install", "flask==3.0.0", "requests"])
    );
    assert_eq!(PythonModule::install_args(&strings(&[])), strings(&["install"]));
    assert_eq!(PythonModule::check_args("src/main.py"), strings(&["-m", "py_compile", "src/main.py"]));
    assert_eq!(PythonModule::pytest_args(), strings(&["-m", "pytest", "tests/"]));
    assert_eq!(PythonModule::unittest_args(), strings(&["-m", "unittest", "discover", "-v"]));
}
