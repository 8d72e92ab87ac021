use forge::course::{first_step, next_step, BuildOutcome, BuildSettings, BuildStep, StepReport};
use forge::error::ForgeError;
use forge::executor::{failure_excerpt, TaskResult};
use forge::lex::{compare, Place};
use forge::text::{chars_of, first_lines, i32_to_string, str_eq, string_of, u64_to_string};
use std::time::Duration;

fn s(t: &str) -> String {
    t.to_string()
}

#[test]
fn messages_of_all_errors() {
    let cases = vec![
        (ForgeError::ConfigNotFound { path: s("/p/forge.toml") }, "No se encontró 'forge.toml' en: /p/forge.toml"),
        (ForgeError::ConfigParseError { message: s("bad") }, "Error al parsear 'forge.toml': bad"),
        (
            ForgeError::ConfigMissingField { field: s("name") },
            "Campo requerido 'name' no encontrado en forge.toml",
        ),
        (
            ForgeError::UnsupportedLanguage { lang: s("go") },
            "Lenguaje no soportado: 'go'. Usa: java, kotlin, python",
        ),
        (ForgeError::CyclicDependency { cycle: s("a → a") }, "Dependencia circular detectada: a → a"),
        (ForgeError::TaskNotFound { task_name: s("x") }, "Tarea no encontrada: 'x'"),
        (
            ForgeError::TaskFailed { task_name: s("javac"), exit_code: -1 },
            "La tarea 'javac' falló con código de salida: -1",
        ),
        (
            ForgeError::TaskFailed { task_name: s("javac"), exit_code: 127 },
            "La tarea 'javac' falló con código de salida: 127",
        ),
        (
            ForgeError::CommandNotFound { command: s("javac") },
            "Comando no encontrado: 'javac'. ¿Está instalado y en el PATH?",
        ),
        (
            ForgeError::TaskTimeout { task_name: s("t"), seconds: 30 },
            "Timeout al ejecutar la tarea 't' después de 30s",
        ),
        (
            ForgeError::DependencyResolutionFailed { dependency: s("g:a") },
            "No se pudo resolver la dependencia: 'g:a'",
        ),
        (ForgeError::DownloadError { url: s("http://x"), message: s("HTTP 404") }, "Error al descargar 'http://x': HTTP 404"),
        (ForgeError::IoError { path: s("/p"), message: s("denied") }, "Error de E/S en '/p': denied"),
        (
            ForgeError::CacheCorrupted { path: s("/p/.forge/cache.json") },
            "Caché corrupta en '/p/.forge/cache.json'. Ejecuta 'forge clean' para regenerar.",
        ),
    ];
    for (error, message) in cases {
        assert_eq!(error.message(), message);
    }
}

#[test]
fn suggestions_depend_on_the_field_and_the_command() {
    assert_eq!(
        ForgeError::ConfigMissingField { field: s("name") }.suggestion(),
        "💡 Añade 'name = \"mi-proyecto\"' en la sección [project] de forge.toml"
    );
    assert_eq!(
        ForgeError::ConfigMissingField { field: s("lang") }.suggestion(),
        "💡 Añade 'lang = \"java\"' (o kotlin/python) en la sección [project] de forge.toml"
    );
    assert_eq!(
        ForgeError::ConfigMissingField { field: s("other") }.suggestion(),
        "💡 Revisa la documentación: https://github.com/enri312/forge#configuración"
    );
    for command in ["javac", "java"] {
        assert_eq!(
            ForgeError::CommandNotFound { command: s(command) }.suggestion(),
            "💡 Instala JDK 17+: https://adoptium.net/ y asegúrate que 'javac' está en PATH"
        );
    }
    assert_eq!(
        ForgeError::CommandNotFound { command: s("kotlinc") }.suggestion(),
        "💡 Instala Kotlin: https://kotlinlang.org/docs/command-line.html"
    );
    for command in ["python", "python3", "pip"] {
        assert_eq!(
            ForgeError::CommandNotFound { command: s(command) }.suggestion(),
            "💡 Instala Python 3.12+: https://www.python.org/downloads/"
        );
    }
    assert_eq!(
        ForgeError::CommandNotFound { command: s("pytest") }.suggestion(),
        "💡 Instala pytest: pip install pytest"
    );
    assert_eq!(
        ForgeError::CommandNotFound { command: s("make") }.suggestion(),
        "💡 Verifica que el comando está instalado y accesible en tu PATH del sistema"
    );
}

#[test]
fn suggestions_of_the_other_errors() {
    assert_eq!(
        ForgeError::CyclicDependency { cycle: s("a → a") }.suggestion(),
        "💡 Revisa las secciones [tasks.*.depends-on] en tu forge.toml para romper el ciclo"
    );
    assert_eq!(
        ForgeError::TaskNotFound { task_name: s("x") }.suggestion(),
        "💡 Lista las tareas disponibles con 'forge info' o revisa la sección [tasks] de forge.toml"
    );
    assert_eq!(
        ForgeError::CacheCorrupted { path: s("p") }.suggestion(),
        "💡 Ejecuta 'forge clean' para eliminar la caché y reconstruir desde cero"
    );
    assert_eq!(
        ForgeError::TaskFailed { task_name: s("t"), exit_code: 1 }.suggestion(),
        "💡 Revisa la salida del compilador arriba. Usa 'forge build --verbose' para más detalle"
    );
    assert_eq!(
        ForgeError::TaskTimeout { task_name: s("t"), seconds: 1 }.suggestion(),
        "💡 Considera aumentar el timeout o dividir la tarea en sub-tareas más pequeñas"
    );
    assert_eq!(
        ForgeError::UnsupportedLanguage { lang: s("go") }.suggestion(),
        "💡 FORGE soporta: java, kotlin, python. Verifica el campo 'lang' en [project]"
    );
    assert_eq!(
        ForgeError::ConfigNotFound { path: s("p") }.suggestion(),
        "💡 Ejecuta 'forge init <lang>' para crear un forge.toml, o verifica que estás en el directorio correcto."
    );
    assert_eq!(
        ForgeError::ConfigParseError { message: s("m") }.suggestion(),
        "💡 Verifica la sintaxis TOML de tu forge.toml. Usa un validador como https://www.toml-lint.com/"
    );
    assert_eq!(
        ForgeError::DependencyResolutionFailed { dependency: s("d") }.suggestion(),
        "💡 Verifica el formato en [dependencies]: \"groupId:artifactId\" = \"versión\". Ejemplo: \"com.google.gson:gson\" = \"2.11.0\""
    );
    assert_eq!(
        ForgeError::DownloadError { url: s("u"), message: s("m") }.suggestion(),
        "💡 Verifica tu conexión a internet y que la dependencia exista en Maven Central / PyPI"
    );
    assert_eq!(
        ForgeError::IoError { path: s("p"), message: s("m") }.suggestion(),
        "💡 Verifica permisos de escritura en el directorio del proyecto y espacio disponible en disco"
    );
}

#[test]
fn numbers_in_decimal() {
    assert_eq!(u64_to_string(0), "0");
    assert_eq!(u64_to_string(7), "7");
    assert_eq!(u64_to_string(10), "10");
    assert_eq!(u64_to_string(1234567890), "1234567890");
    assert_eq!(u64_to_string(u64::MAX), "18446744073709551615");
    assert_eq!(i32_to_string(0), "0");
    assert_eq!(i32_to_string(-1), "-1");
    assert_eq!(i32_to_string(i32::MAX), "2147483647");
    assert_eq!(i32_to_string(i32::MIN), "-2147483648");
}

#[test]
fn strings_and_characters() {
    assert_eq!(chars_of("añ→b"), vec!['a', 'ñ', '→', 'b']);
    assert_eq!(string_of(&vec!['a', 'ñ', '→', 'b']), "añ→b");
    assert_eq!(string_of(&vec![]), "");
    assert!(str_eq("java", "java"));
    assert!(!str_eq("java", "Java"));
    assert!(!str_eq("java", "jav"));
    assert!(str_eq("", ""));
}

#[test]
fn strings_compare_by_their_bytes() {
    assert_eq!(compare("a", "b"), Place::Before);
    assert_eq!(compare("b", "a"), Place::After);
    assert_eq!(compare("a", "a"), Place::Same);
    assert_eq!(compare("", "a"), Place::Before);
    assert_eq!(compare("a", ""), Place::After);
    assert_eq!(compare("ab", "abc"), Place::Before);
    assert_eq!(compare("Z", "a"), Place::Before);
    assert_eq!(compare("é", "z"), Place::After);
    for (x, y) in [("a/b", "a.b"), ("ñ", "o"), ("abc", "abd"), ("", "")] {
        let expected = match x.cmp(y) {
            std::cmp::Ordering::Less => Place::Before,
            std::cmp::Ordering::Equal => Place::Same,
            std::cmp::Ordering::Greater => Place::After,
        };
        assert_eq!(compare(x, y), expected);
    }
}

#[test]
fn first_lines_are_the_lines_of_the_text() {
    for text in ["", "a", "a\n", "a\nb", "a\r\nb\r\n", "a\n\nb\n", "\n", "\r\n", "a\r", "a\rb\n", "\n\n\n", "x\r\r\ny"] {
        for limit in [0usize, 1, 2, 20] {
            let expected: Vec<String> = text.lines().take(limit).map(|l| l.to_string()).collect();
            assert_eq!(first_lines(text, limit), expected, "text {:?}, limit {}", text, limit);
        }
    }
}

#[test]
fn excerpt_of_a_failed_task_has_at_most_twenty_lines() {
    let stderr: String = (1..=30).map(|i| format!("line {}\n", i)).collect();
    let mut result = TaskResult {
        name: s("compile"),
        success: false,
        duration: Duration::from_millis(1),
        stdout: String::new(),
        stderr,
        cached: false,
    };
    let lines = failure_excerpt(&result);
    assert_eq!(lines.len(), 20);
    assert_eq!(lines[0], "line 1");
    assert_eq!(lines[19], "line 20");
    result.success = true;
    assert!(failure_excerpt(&result).is_empty());
    result.success = false;
    result.stderr = String::new();
    assert!(failure_excerpt(&result).is_empty());
}

fn walk(settings: BuildSettings, reports: &[StepReport]) -> Vec<BuildStep> {
    let mut steps = vec![first_step()];
    for report in reports {
        let next = next_step(settings, *steps.last().unwrap(), *report);
        steps.push(next);
    }
    steps
}

#[test]
fn unchanged_sources_skip_the_build() {
    let settings = BuildSettings { has_remote: true, has_dependencies: true };
    assert_eq!(
        walk(settings, &[StepReport::Changes(false)]),
        vec![BuildStep::CheckChanges, BuildStep::Done(BuildOutcome::UpToDate)]
    );
}

#[test]
fn remote_hit_restores_without_compiling() {
    let settings = BuildSettings { has_remote: true, has_dependencies: true };
    assert_eq!(
        walk(
            settings,
            &[StepReport::Changes(true), StepReport::Remote(true), StepReport::Finished, StepReport::Finished]
        ),
        vec![
            BuildStep::CheckChanges,
            BuildStep::TryRemote,
            BuildStep::SaveRestored,
            BuildStep::PostBuildHooks(BuildOutcome::Restored),
            BuildStep::Done(BuildOutcome::Restored),
        ]
    );
}

#[test]
fn remote_miss_builds_and_pushes() {
    let settings = BuildSettings { has_remote: true, has_dependencies: true };
    let done = StepReport::Finished;
    assert_eq!(
        walk(settings, &[StepReport::Changes(true), StepReport::Remote(false), done, done, done, done, done, done]),
        vec![
            BuildStep::CheckChanges,
            BuildStep::TryRemote,
            BuildStep::PreBuildHooks,
            BuildStep::ResolveDependencies,
            BuildStep::Compile,
            BuildStep::StoreHashes,
            BuildStep::Upload,
            BuildStep::PostBuildHooks(BuildOutcome::Built),
            BuildStep::Done(BuildOutcome::Built),
        ]
    );
}

#[test]
fn local_build_without_remote_or_dependencies() {
    let settings = BuildSettings { has_remote: false, has_dependencies: false };
    let done = StepReport::Finished;
    assert_eq!(
        walk(settings, &[StepReport::Changes(true), done, done, done, done]),
        vec![
            BuildStep::CheckChanges,
            BuildStep::PreBuildHooks,
            BuildStep::Compile,
            BuildStep::StoreHashes,
            BuildStep::PostBuildHooks(BuildOutcome::Built),
            BuildStep::Done(BuildOutcome::Built),
        ]
    );
}

#[test]
fn failed_compilation_stores_no_hashes_and_failed_push_is_not_fatal() {
    let settings = BuildSettings { has_remote: true, has_dependencies: false };
    assert_eq!(next_step(settings, BuildStep::Compile, StepReport::Broke), BuildStep::Done(BuildOutcome::Failed));
    assert_eq!(
        next_step(settings, BuildStep::Upload, StepReport::Broke),
        BuildStep::PostBuildHooks(BuildOutcome::Built)
    );
    assert_eq!(
        next_step(settings, BuildStep::PreBuildHooks, StepReport::Broke),
        BuildStep::Done(BuildOutcome::Failed)
    );
    assert_eq!(
        next_step(settings, BuildStep::CheckChanges, StepReport::Finished),
        BuildStep::Done(BuildOutcome::Failed)
    );
    assert_eq!(
        next_step(settings, BuildStep::Done(BuildOutcome::Built), StepReport::Broke),
        BuildStep::Done(BuildOutcome::Built)
    );
}
