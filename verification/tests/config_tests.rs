use forge::config::{
    default_java_source, default_java_target, default_java_test_source, default_kotlin_source,
    default_kotlin_test_source, default_lang, default_output_dir, default_python_source, default_version,
    ForgeConfig, HooksConfig, JavaConfig, KotlinConfig, ProjectConfig, PythonConfig, RemoteCacheConfig, TaskConfig,
};
use forge::error::ForgeError;
use forge::langs::extensions_for_lang;

fn text(table: &toml::Table, key: &str) -> Option<String> {
    table.get(key).and_then(|v| v.as_str()).map(|s| s.to_string())
}

fn pairs(table: &toml::Table, key: &str) -> Vec<(String, String)> {
    match table.get(key).and_then(|v| v.as_table()) {
        Some(t) => t.iter().map(|(k, v)| (k.clone(), v.as_str().unwrap_or("").to_string())).collect(),
        None => Vec::new(),
    }
}

fn list(table: &toml::Table, key: &str) -> Vec<String> {
    match table.get(key).and_then(|v| v.as_array()) {
        Some(a) => a.iter().filter_map(|v| v.as_str()).map(|s| s.to_string()).collect(),
        None => Vec::new(),
    }
}

/// Reads a project file the way the program does: absent keys take their defaults.
fn config_from(toml_str: &str) -> ForgeConfig {
    let root: toml::Table = toml_str.parse().unwrap();
    let project = root.get("project").and_then(|v| v.as_table()).unwrap();
    let java = root.get("java").and_then(|v| v.as_table()).map(|t| JavaConfig {
        source: text(t, "source").unwrap_or_else(default_java_source),
        test_source: text(t, "test-source").unwrap_or_else(default_java_test_source),
        target: text(t, "target").unwrap_or_else(default_java_target),
        main_class: text(t, "main-class"),
    });
    let kotlin = root.get("kotlin").and_then(|v| v.as_table()).map(|t| KotlinConfig {
        source: text(t, "source").unwrap_or_else(default_kotlin_source),
        test_source: text(t, "test-source").unwrap_or_else(default_kotlin_test_source),
        jvm_target: text(t, "jvm_target").unwrap_or_else(default_java_target),
        main_class: text(t, "main-class"),
    });
    let python = root.get("python").and_then(|v| v.as_table()).map(|t| PythonConfig {
        source: text(t, "source").unwrap_or_else(default_python_source),
        main_script: text(t, "main-script"),
        python_version: text(t, "python_version"),
    });
    let tasks = match root.get("tasks").and_then(|v| v.as_table()) {
        Some(t) => t
            .iter()
            .filter_map(|(k, v)| v.as_table().map(|t| (k, t)))
            .map(|(k, t)| {
                (
                    k.clone(),
                    TaskConfig {
                        command: text(t, "command").unwrap(),
                        depends_on: list(t, "depends-on"),
                        description: text(t, "description").unwrap_or_default(),
                    },
                )
            })
            .collect(),
        None => Vec::new(),
    };
    let hooks = match root.get("hooks").and_then(|v| v.as_table()) {
        Some(t) => HooksConfig {
            pre_build: list(t, "pre-build"),
            post_build: list(t, "post-build"),
            pre_test: list(t, "pre-test"),
            post_test: list(t, "post-test"),
        },
        None => HooksConfig::default(),
    };
    let cache = root.get("cache").and_then(|v| v.as_table()).map(|t| RemoteCacheConfig {
        remote: text(t, "remote").unwrap(),
        token: text(t, "token"),
        push: t.get("push").and_then(|v| v.as_bool()).unwrap_or(false),
    });
    ForgeConfig {
        project: ProjectConfig {
            name: text(project, "name").unwrap(),
            version: text(project, "version").unwrap_or_else(default_version),
            lang: text(project, "lang").unwrap_or_else(default_lang),
            description: text(project, "description").unwrap_or_default(),
            output_dir: text(project, "output_dir").unwrap_or_else(default_output_dir),
        },
        java,
        kotlin,
        python,
        dependencies: pairs(&root, "dependencies"),
        test_dependencies: pairs(&root, "test-dependencies"),
        tasks,
        hooks,
        modules: list(&root, "modules"),
        plugins: pairs(&root, "plugins"),
        cache,
    }
}

#[test]
fn test_parse_java_config() {
    let toml_str = r#"
[project]
name = "mi-app"
version = "1.0.0"
lang = "java"

[java]
source = "src/main/java"
target = "21"
main-class = "com.ejemplo.Main"

[dependencies]
"com.google.guava:guava" = "33.0.0"

[test-dependencies]
"org.junit.jupiter:junit-jupiter-api" = "5.10.1"
"#;

    let config = config_from(toml_str);
    assert_eq!(config.project.name, "mi-app");
    assert_eq!(config.project.lang, "java");
    assert_eq!(config.java.as_ref().unwrap().target, "21");
    assert_eq!(config.java.as_ref().unwrap().test_source, "src/test/java");
    assert_eq!(config.java.as_ref().unwrap().main_class, Some("com.ejemplo.Main".to_string()));
    assert!(config.dependencies.iter().any(|(k, _)| k == "com.google.guava:guava"));
    assert!(config.test_dependencies.iter().any(|(k, _)| k == "org.junit.jupiter:junit-jupiter-api"));
}

#[test]
fn test_parse_python_config() {
    let toml_str = r#"
[project]
name = "mi-script"
lang = "python"

[python]
source = "src"
main-script = "main.py"
"#;

    let config = config_from(toml_str);
    assert_eq!(config.project.lang, "python");
    assert_eq!(config.python.as_ref().unwrap().main_script, Some("main.py".to_string()));
}

#[test]
fn test_unsupported_language() {
    let toml_str = r#"
[project]
name = "test"
lang = "go"
"#;

    let config = config_from(toml_str);
    assert!(config.validate().is_err());
}

#[test]
fn unsupported_language_is_named_in_the_error() {
    let config = config_from("[project]\nname = \"test\"\nlang = \"go\"\n");
    assert_eq!(config.validate(), Err(ForgeError::UnsupportedLanguage { lang: "go".to_string() }));
}

#[test]
fn supported_languages_are_accepted() {
    for lang in ["java", "kotlin", "python"] {
        let config = config_from(&format!("[project]\nname = \"t\"\nlang = \"{}\"\n", lang));
        assert_eq!(config.validate(), Ok(()));
    }
    assert!(config_from("[project]\nname = \"t\"\nlang = \"Java\"\n").validate().is_err());
    assert!(config_from("[project]\nname = \"t\"\nlang = \"\"\n").validate().is_err());
}

#[test]
fn defaults_are_the_documented_ones() {
    assert_eq!(default_version(), "0.1.0");
    assert_eq!(default_lang(), "java");
    assert_eq!(default_output_dir(), "build");
    assert_eq!(default_java_source(), "src/main/java");
    assert_eq!(default_java_test_source(), "src/test/java");
    assert_eq!(default_kotlin_source(), "src/main/kotlin");
    assert_eq!(default_kotlin_test_source(), "src/test/kotlin");
    assert_eq!(default_python_source(), "src");
    assert_eq!(default_java_target(), "17");
}

#[test]
fn source_dir_is_the_configured_one_or_the_default_of_the_language() {
    assert_eq!(config_from("[project]\nname = \"t\"\nlang = \"java\"\n").source_dir(), "src/main/java");
    assert_eq!(config_from("[project]\nname = \"t\"\nlang = \"kotlin\"\n").source_dir(), "src/main/kotlin");
    assert_eq!(config_from("[project]\nname = \"t\"\nlang = \"python\"\n").source_dir(), "src");
    assert_eq!(config_from("[project]\nname = \"t\"\nlang = \"go\"\n").source_dir(), "src");
    assert_eq!(
        config_from("[project]\nname = \"t\"\nlang = \"java\"\n[java]\nsource = \"java-src\"\n").source_dir(),
        "java-src"
    );
    assert_eq!(
        config_from("[project]\nname = \"t\"\nlang = \"kotlin\"\n[kotlin]\nsource = \"kt\"\n[java]\nsource = \"j\"\n")
            .source_dir(),
        "kt"
    );
    assert_eq!(
        config_from("[project]\nname = \"t\"\nlang = \"python\"\n[python]\nsource = \"app\"\n").source_dir(),
        "app"
    );
}

#[test]
fn main_entry_is_the_class_or_script_of_the_language() {
    assert_eq!(config_from("[project]\nname = \"t\"\nlang = \"java\"\n").main_entry(), None);
    assert_eq!(config_from("[project]\nname = \"t\"\nlang = \"java\"\n[java]\n").main_entry(), None);
    assert_eq!(
        config_from("[project]\nname = \"t\"\nlang = \"java\"\n[java]\nmain-class = \"a.B\"\n").main_entry(),
        Some("a.B".to_string())
    );
    assert_eq!(
        config_from("[project]\nname = \"t\"\nlang = \"kotlin\"\n[kotlin]\nmain-class = \"MainKt\"\n").main_entry(),
        Some("MainKt".to_string())
    );
    assert_eq!(
        config_from("[project]\nname = \"t\"\nlang = \"python\"\n[python]\nmain-script = \"run.py\"\n").main_entry(),
        Some("run.py".to_string())
    );
    assert_eq!(
        config_from("[project]\nname = \"t\"\nlang = \"python\"\n[java]\nmain-class = \"a.B\"\n").main_entry(),
        None
    );
    assert_eq!(
        config_from("[project]\nname = \"t\"\nlang = \"go\"\n[java]\nmain-class = \"a.B\"\n").main_entry(),
        None
    );
}

#[test]
fn templates_are_project_files_of_their_language() {
    for lang in ["java", "kotlin", "python"] {
        let template = ForgeConfig::generate_template(lang).unwrap();
        let config = config_from(&template);
        assert_eq!(config.project.lang, lang);
        assert_eq!(config.validate(), Ok(()));
        assert_eq!(config.project.version, "0.1.0");
        assert_eq!(config.project.output_dir, "build");
        assert!(config.main_entry().is_some());
    }
    assert_eq!(config_from(&ForgeConfig::generate_template("java").unwrap()).source_dir(), "src/main/java");
    assert_eq!(config_from(&ForgeConfig::generate_template("kotlin").unwrap()).source_dir(), "src/main/kotlin");
    assert_eq!(config_from(&ForgeConfig::generate_template("python").unwrap()).source_dir(), "src");
    assert_eq!(
        ForgeConfig::generate_template("go"),
        Err(ForgeError::UnsupportedLanguage { lang: "go".to_string() })
    );
}

#[test]
fn extensions_of_the_languages() {
    assert_eq!(extensions_for_lang("java"), vec!["java"]);
    assert_eq!(extensions_for_lang("kotlin"), vec!["kt", "kts"]);
    assert_eq!(extensions_for_lang("python"), vec!["py"]);
    assert!(extensions_for_lang("go").is_empty());
    assert!(extensions_for_lang("").is_empty());
}
