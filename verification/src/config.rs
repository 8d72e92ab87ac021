//! The project configuration as the build core reads it.

use vstd::prelude::*;
use vstd::string::StringExecFns;
use crate::error::{ForgeError, ForgeResult};
use crate::text::str_eq;

verus! {

/// Where the distributed cache lives and whether builds are pushed to it.
#[derive(Debug, Clone)]
pub struct RemoteCacheConfig {
    /// Base address of the store.
    pub remote: String,
    /// Bearer token, where the store asks for one.
    pub token: Option<String>,
    /// Whether a successful local build is uploaded.
    pub push: bool,
}

/// General data of the project.
#[derive(Debug, Clone, Default)]
pub struct ProjectConfig {
    pub name: String,
    pub version: String,
    /// "java", "kotlin" or "python".
    pub lang: String,
    pub description: String,
    pub output_dir: String,
}

/// Settings of a Java project.
#[derive(Debug, Clone)]
pub struct JavaConfig {
    pub source: String,
    pub test_source: String,
    pub target: String,
    pub main_class: Option<String>,
}

/// Settings of a Kotlin project.
#[derive(Debug, Clone)]
pub struct KotlinConfig {
    pub source: String,
    pub test_source: String,
    pub jvm_target: String,
    pub main_class: Option<String>,
}

/// Settings of a Python project.
#[derive(Debug, Clone)]
pub struct PythonConfig {
    pub source: String,
    pub main_script: Option<String>,
    pub python_version: Option<String>,
}

/// A task that the project defines.
#[derive(Debug, Clone)]
pub struct TaskConfig {
    pub command: String,
    pub depends_on: Vec<String>,
    pub description: String,
}

/// Commands to run around builds and tests.
#[derive(Debug, Clone, Default)]
pub struct HooksConfig {
    pub pre_build: Vec<String>,
    pub post_build: Vec<String>,
    pub pre_test: Vec<String>,
    pub post_test: Vec<String>,
}

/// The whole configuration of a project. The tables of the file are kept as
/// lists of pairs, in the order given by whoever read the file.
#[derive(Debug, Clone, Default)]
pub struct ForgeConfig {
    pub project: ProjectConfig,
    pub java: Option<JavaConfig>,
    pub kotlin: Option<KotlinConfig>,
    pub python: Option<PythonConfig>,
    /// Dependencies: name and version.
    pub dependencies: Vec<(String, String)>,
    /// Dependencies of the tests only.
    pub test_dependencies: Vec<(String, String)>,
    /// Tasks of the project, by name.
    pub tasks: Vec<(String, TaskConfig)>,
    pub hooks: HooksConfig,
    /// Sub-modules of a workspace.
    pub modules: Vec<String>,
    /// Plugins: name and source.
    pub plugins: Vec<(String, String)>,
    pub cache: Option<RemoteCacheConfig>,
}

/// The version of a project that names none.
pub fn default_version() -> (s: String)
    ensures
        s@ == "0.1.0"@,
{
    String::from_str("0.1.0")
}

/// The language of a project that names none.
pub fn default_lang() -> (s: String)
    ensures
        s@ == "java"@,
{
    String::from_str("java")
}

/// The output directory of a project that names none.
pub fn default_output_dir() -> (s: String)
    ensures
        s@ == "build"@,
{
    String::from_str("build")
}

/// Where Java sources are by default.
pub fn default_java_source() -> (s: String)
    ensures
        s@ == "src/main/java"@,
{
    String::from_str("src/main/java")
}

/// Where Java test sources are by default.
pub fn default_java_test_source() -> (s: String)
    ensures
        s@ == "src/test/java"@,
{
    String::from_str("src/test/java")
}

/// Where Kotlin sources are by default.
pub fn default_kotlin_source() -> (s: String)
    ensures
        s@ == "src/main/kotlin"@,
{
    String::from_str("src/main/kotlin")
}

/// Where Kotlin test sources are by default.
pub fn default_kotlin_test_source() -> (s: String)
    ensures
        s@ == "src/test/kotlin"@,
{
    String::from_str("src/test/kotlin")
}

/// Where Python sources are by default.
pub fn default_python_source() -> (s: String)
    ensures
        s@ == "src"@,
{
    String::from_str("src")
}

/// The JDK release that is targeted by default.
pub fn default_java_target() -> (s: String)
    ensures
        s@ == "17"@,
{
    String::from_str("17")
}

/// Whether `lang` is a language that the tool builds.
pub open spec fn is_supported(lang: Seq<char>) -> bool {
    lang == "java"@ || lang == "kotlin"@ || lang == "python"@
}

/// The project file that a new Java project starts with.
pub open spec fn java_template() -> Seq<char> {
    "[project]\nname = \"my-app\"\nversion = \"0.1.0\"\nlang = \"java\"\ndescription = \"\"\noutput_dir = \"build\"\n\n[java]\nsource = \"src/main/java\"\ntest-source = \"src/test/java\"\ntarget = \"17\"\nmain-class = \"Main\"\n\n[dependencies]\n\n[test-dependencies]\n"@
}

/// The project file that a new Kotlin project starts with.
pub open spec fn kotlin_template() -> Seq<char> {
    "[project]\nname = \"my-app\"\nversion = \"0.1.0\"\nlang = \"kotlin\"\ndescription = \"\"\noutput_dir = \"build\"\n\n[kotlin]\nsource = \"src/main/kotlin\"\ntest-source = \"src/test/kotlin\"\njvm_target = \"17\"\nmain-class = \"MainKt\"\n\n[dependencies]\n\n[test-dependencies]\n"@
}

/// The project file that a new Python project starts with.
pub open spec fn python_template() -> Seq<char> {
    "[project]\nname = \"my-app\"\nversion = \"0.1.0\"\nlang = \"python\"\ndescription = \"\"\noutput_dir = \"build\"\n\n[python]\nsource = \"src\"\nmain-script = \"main.py\"\n\n[dependencies]\n"@
}

impl ForgeConfig {
    /// The project file that a new project of the language starts with.
    pub open spec fn template_text(lang: Seq<char>) -> Seq<char> {
        if lang == "java"@ {
            java_template()
        } else if lang == "kotlin"@ {
            kotlin_template()
        } else {
            python_template()
        }
    }

    /// A project file to start a project of the given language with.
    pub fn generate_template(lang: &str) -> (r: ForgeResult<String>)
        ensures
            is_supported(lang@) ==> (r matches Ok(t) && t@ == Self::template_text(lang@)),
            !is_supported(lang@) ==> (r matches Err(ForgeError::UnsupportedLanguage { lang: l }) && l@ == lang@),
    {
        if str_eq(lang, "java") {
            Ok(
                String::from_str(
                    "[project]\nname = \"my-app\"\nversion = \"0.1.0\"\nlang = \"java\"\ndescription = \"\"\noutput_dir = \"build\"\n\n[java]\nsource = \"src/main/java\"\ntest-source = \"src/test/java\"\ntarget = \"17\"\nmain-class = \"Main\"\n\n[dependencies]\n\n[test-dependencies]\n",
                ),
            )
        } else if str_eq(lang, "kotlin") {
            Ok(
                String::from_str(
                    "[project]\nname = \"my-app\"\nversion = \"0.1.0\"\nlang = \"kotlin\"\ndescription = \"\"\noutput_dir = \"build\"\n\n[kotlin]\nsource = \"src/main/kotlin\"\ntest-source = \"src/test/kotlin\"\njvm_target = \"17\"\nmain-class = \"MainKt\"\n\n[dependencies]\n\n[test-dependencies]\n",
                ),
            )
        } else if str_eq(lang, "python") {
            Ok(
                String::from_str(
                    "[project]\nname = \"my-app\"\nversion = \"0.1.0\"\nlang = \"python\"\ndescription = \"\"\noutput_dir = \"build\"\n\n[python]\nsource = \"src\"\nmain-script = \"main.py\"\n\n[dependencies]\n",
                ),
            )
        } else {
            Err(ForgeError::UnsupportedLanguage { lang: String::from_str(lang) })
        }
    }

    /// The source directory for the project's language, as text.
    pub open spec fn source_dir_text(self) -> Seq<char> {
        if self.project.lang@ == "java"@ {
            match self.java {
                Some(j) => j.source@,
                None => "src/main/java"@,
            }
        } else if self.project.lang@ == "kotlin"@ {
            match self.kotlin {
                Some(k) => k.source@,
                None => "src/main/kotlin"@,
            }
        } else if self.project.lang@ == "python"@ {
            match self.python {
                Some(p) => p.source@,
                None => "src"@,
            }
        } else {
            "src"@
        }
    }

    /// The main class or script for the project's language, as text.
    pub open spec fn main_entry_text(self) -> Option<Seq<char>> {
        if self.project.lang@ == "java"@ {
            match self.java {
                Some(JavaConfig { main_class: Some(m), .. }) => Some(m@),
                _ => None,
            }
        } else if self.project.lang@ == "kotlin"@ {
            match self.kotlin {
                Some(KotlinConfig { main_class: Some(m), .. }) => Some(m@),
                _ => None,
            }
        } else if self.project.lang@ == "python"@ {
            match self.python {
                Some(PythonConfig { main_script: Some(m), .. }) => Some(m@),
                _ => None,
            }
        } else {
            None
        }
    }

    /// Accepts the configuration when its language is one of java, kotlin
    /// and python, and else names the language in the error.
    pub fn validate(&self) -> (r: ForgeResult<()>)
        ensures
            is_supported(self.project.lang@) ==> r is Ok,
            !is_supported(self.project.lang@) ==> (r matches Err(ForgeError::UnsupportedLanguage { lang }) && lang@
                == self.project.lang@),
    {
        let lang = self.project.lang.as_str();
        if str_eq(lang, "java") || str_eq(lang, "kotlin") || str_eq(lang, "python") {
            Ok(())
        } else {
            Err(ForgeError::UnsupportedLanguage { lang: self.project.lang.clone() })
        }
    }

    /// The source directory for the project's language: the configured one,
    /// else the default of the language, and "src" for any other language.
    pub fn source_dir(&self) -> (dir: String)
        ensures
            dir@ == self.source_dir_text(),
    {
        let lang = self.project.lang.as_str();
        if str_eq(lang, "java") {
            match &self.java {
                Some(j) => j.source.clone(),
                None => default_java_source(),
            }
        } else if str_eq(lang, "kotlin") {
            match &self.kotlin {
                Some(k) => k.source.clone(),
                None => default_kotlin_source(),
            }
        } else if str_eq(lang, "python") {
            match &self.python {
                Some(p) => p.source.clone(),
                None => default_python_source(),
            }
        } else {
            String::from_str("src")
        }
    }

    /// The main class, or the main script for Python, where one is set.
    pub fn main_entry(&self) -> (entry: Option<String>)
        ensures
            match entry {
                Some(e) => self.main_entry_text() == Some(e@),
                None => self.main_entry_text() is None,
            },
    {
        let lang = self.project.lang.as_str();
        if str_eq(lang, "java") {
            match &self.java {
                Some(j) => match &j.main_class {
                    Some(m) => Some(m.clone()),
                    None => None,
                },
                None => None,
            }
        } else if str_eq(lang, "kotlin") {
            match &self.kotlin {
                Some(k) => match &k.main_class {
                    Some(m) => Some(m.clone()),
                    None => None,
                },
                None => None,
            }
        } else if str_eq(lang, "python") {
            match &self.python {
                Some(p) => match &p.main_script {
                    Some(m) => Some(m.clone()),
                    None => None,
                },
                None => None,
            }
        } else {
            None
        }
    }
}

} // verus!
