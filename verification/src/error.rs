//! The error kinds of the build core, each with a hint for the user.

use vstd::prelude::*;
use vstd::string::StringExecFns;
use crate::text::{decimal, i32_to_string, int_text, str_eq, u64_to_string};

verus! {

/// What can go wrong in the build core. Paths are carried as text.
#[derive(Debug, Clone, PartialEq, Eq)]
pub enum ForgeError {
    ConfigNotFound { path: String },
    ConfigParseError { message: String },
    ConfigMissingField { field: String },
    UnsupportedLanguage { lang: String },
    CyclicDependency { cycle: String },
    TaskNotFound { task_name: String },
    TaskFailed { task_name: String, exit_code: i32 },
    CommandNotFound { command: String },
    TaskTimeout { task_name: String, seconds: u64 },
    DependencyResolutionFailed { dependency: String },
    DownloadError { url: String, message: String },
    IoError { path: String, message: String },
    CacheCorrupted { path: String },
}

/// Result type of the build core.
pub type ForgeResult<T> = Result<T, ForgeError>;

/// The hint for a missing configuration field.
pub open spec fn field_hint(field: Seq<char>) -> Seq<char> {
    if field == "name"@ {
        "💡 Añade 'name = \"mi-proyecto\"' en la sección [project] de forge.toml"@
    } else if field == "lang"@ {
        "💡 Añade 'lang = \"java\"' (o kotlin/python) en la sección [project] de forge.toml"@
    } else {
        "💡 Revisa la documentación: https://github.com/enri312/forge#configuración"@
    }
}

/// The hint for a command that is not installed.
pub open spec fn command_hint(command: Seq<char>) -> Seq<char> {
    if command == "javac"@ || command == "java"@ {
        "💡 Instala JDK 17+: https://adoptium.net/ y asegúrate que 'javac' está en PATH"@
    } else if command == "kotlinc"@ {
        "💡 Instala Kotlin: https://kotlinlang.org/docs/command-line.html"@
    } else if command == "python"@ || command == "python3"@ || command == "pip"@ {
        "💡 Instala Python 3.12+: https://www.python.org/downloads/"@
    } else if command == "pytest"@ {
        "💡 Instala pytest: pip install pytest"@
    } else {
        "💡 Verifica que el comando está instalado y accesible en tu PATH del sistema"@
    }
}

impl ForgeError {
    /// The hint that `suggestion` returns, as text.
    pub open spec fn suggestion_text(self) -> Seq<char> {
        match self {
            ForgeError::ConfigNotFound { .. } =>
                "💡 Ejecuta 'forge init <lang>' para crear un forge.toml, o verifica que estás en el directorio correcto."@,
            ForgeError::ConfigParseError { .. } =>
                "💡 Verifica la sintaxis TOML de tu forge.toml. Usa un validador como https://www.toml-lint.com/"@,
            ForgeError::ConfigMissingField { field } => field_hint(field@),
            ForgeError::UnsupportedLanguage { .. } =>
                "💡 FORGE soporta: java, kotlin, python. Verifica el campo 'lang' en [project]"@,
            ForgeError::CyclicDependency { .. } =>
                "💡 Revisa las secciones [tasks.*.depends-on] en tu forge.toml para romper el ciclo"@,
            ForgeError::TaskNotFound { .. } =>
                "💡 Lista las tareas disponibles con 'forge info' o revisa la sección [tasks] de forge.toml"@,
            ForgeError::TaskFailed { .. } =>
                "💡 Revisa la salida del compilador arriba. Usa 'forge build --verbose' para más detalle"@,
            ForgeError::CommandNotFound { command } => command_hint(command@),
            ForgeError::TaskTimeout { .. } =>
                "💡 Considera aumentar el timeout o dividir la tarea en sub-tareas más pequeñas"@,
            ForgeError::DependencyResolutionFailed { .. } =>
                "💡 Verifica el formato en [dependencies]: \"groupId:artifactId\" = \"versión\". Ejemplo: \"com.google.gson:gson\" = \"2.11.0\""@,
            ForgeError::DownloadError { .. } =>
                "💡 Verifica tu conexión a internet y que la dependencia exista en Maven Central / PyPI"@,
            ForgeError::IoError { .. } =>
                "💡 Verifica permisos de escritura en el directorio del proyecto y espacio disponible en disco"@,
            ForgeError::CacheCorrupted { .. } =>
                "💡 Ejecuta 'forge clean' para eliminar la caché y reconstruir desde cero"@,
        }
    }

    /// What `message` returns, as text.
    pub open spec fn message_text(self) -> Seq<char> {
        match self {
            ForgeError::ConfigNotFound { path } => "No se encontró 'forge.toml' en: "@ + path@,
            ForgeError::ConfigParseError { message } => "Error al parsear 'forge.toml': "@ + message@,
            ForgeError::ConfigMissingField { field } => "Campo requerido '"@ + field@
                + "' no encontrado en forge.toml"@,
            ForgeError::UnsupportedLanguage { lang } => "Lenguaje no soportado: '"@ + lang@
                + "'. Usa: java, kotlin, python"@,
            ForgeError::CyclicDependency { cycle } => "Dependencia circular detectada: "@ + cycle@,
            ForgeError::TaskNotFound { task_name } => "Tarea no encontrada: '"@ + task_name@ + "'"@,
            ForgeError::TaskFailed { task_name, exit_code } => "La tarea '"@ + task_name@
                + "' falló con código de salida: "@ + int_text(exit_code as int),
            ForgeError::CommandNotFound { command } => "Comando no encontrado: '"@ + command@
                + "'. ¿Está instalado y en el PATH?"@,
            ForgeError::TaskTimeout { task_name, seconds } => "Timeout al ejecutar la tarea '"@ + task_name@
                + "' después de "@ + decimal(seconds as nat) + "s"@,
            ForgeError::DependencyResolutionFailed { dependency } => "No se pudo resolver la dependencia: '"@
                + dependency@ + "'"@,
            ForgeError::DownloadError { url, message } => "Error al descargar '"@ + url@ + "': "@ + message@,
            ForgeError::IoError { path, message } => "Error de E/S en '"@ + path@ + "': "@ + message@,
            ForgeError::CacheCorrupted { path } => "Caché corrupta en '"@ + path@
                + "'. Ejecuta 'forge clean' para regenerar."@,
        }
    }

    /// The error in words, for the user.
    pub fn message(&self) -> (text: String)
        ensures
            text@ == self.message_text(),
    {
        match self {
            ForgeError::ConfigNotFound { path } => {
                let mut t = String::from_str("No se encontró 'forge.toml' en: ");
                t.append(path.as_str());
                t
            },
            ForgeError::ConfigParseError { message } => {
                let mut t = String::from_str("Error al parsear 'forge.toml': ");
                t.append(message.as_str());
                t
            },
            ForgeError::ConfigMissingField { field } => {
                let mut t = String::from_str("Campo requerido '");
                t.append(field.as_str());
                t.append("' no encontrado en forge.toml");
                t
            },
            ForgeError::UnsupportedLanguage { lang } => {
                let mut t = String::from_str("Lenguaje no soportado: '");
                t.append(lang.as_str());
                t.append("'. Usa: java, kotlin, python");
                t
            },
            ForgeError::CyclicDependency { cycle } => {
                let mut t = String::from_str("Dependencia circular detectada: ");
                t.append(cycle.as_str());
                t
            },
            ForgeError::TaskNotFound { task_name } => {
                let mut t = String::from_str("Tarea no encontrada: '");
                t.append(task_name.as_str());
                t.append("'");
                t
            },
            ForgeError::TaskFailed { task_name, exit_code } => {
                let mut t = String::from_str("La tarea '");
                t.append(task_name.as_str());
                t.append("' falló con código de salida: ");
                t.append(i32_to_string(*exit_code).as_str());
                t
            },
            ForgeError::CommandNotFound { command } => {
                let mut t = String::from_str("Comando no encontrado: '");
                t.append(command.as_str());
                t.append("'. ¿Está instalado y en el PATH?");
                t
            },
            ForgeError::TaskTimeout { task_name, seconds } => {
                let mut t = String::from_str("Timeout al ejecutar la tarea '");
                t.append(task_name.as_str());
                t.append("' después de ");
                t.append(u64_to_string(*seconds).as_str());
                t.append("s");
                t
            },
            ForgeError::DependencyResolutionFailed { dependency } => {
                let mut t = String::from_str("No se pudo resolver la dependencia: '");
                t.append(dependency.as_str());
                t.append("'");
                t
            },
            ForgeError::DownloadError { url, message } => {
                let mut t = String::from_str("Error al descargar '");
                t.append(url.as_str());
                t.append("': ");
                t.append(message.as_str());
                t
            },
            ForgeError::IoError { path, message } => {
                let mut t = String::from_str("Error de E/S en '");
                t.append(path.as_str());
                t.append("': ");
                t.append(message.as_str());
                t
            },
            ForgeError::CacheCorrupted { path } => {
                let mut t = String::from_str("Caché corrupta en '");
                t.append(path.as_str());
                t.append("'. Ejecuta 'forge clean' para regenerar.");
                t
            },
        }
    }

    /// A hint that tells the user how to resolve this error.
    pub fn suggestion(&self) -> (hint: &'static str)
        ensures
            hint@ == self.suggestion_text(),
    {
        match self {
            ForgeError::ConfigNotFound { .. } => {
                "💡 Ejecuta 'forge init <lang>' para crear un forge.toml, o verifica que estás en el directorio correcto."
            },
            ForgeError::ConfigParseError { .. } => {
                "💡 Verifica la sintaxis TOML de tu forge.toml. Usa un validador como https://www.toml-lint.com/"
            },
            ForgeError::ConfigMissingField { field } => {
                if str_eq(field.as_str(), "name") {
                    "💡 Añade 'name = \"mi-proyecto\"' en la sección [project] de forge.toml"
                } else if str_eq(field.as_str(), "lang") {
                    "💡 Añade 'lang = \"java\"' (o kotlin/python) en la sección [project] de forge.toml"
                } else {
                    "💡 Revisa la documentación: https://github.com/enri312/forge#configuración"
                }
            },
            ForgeError::UnsupportedLanguage { .. } => {
                "💡 FORGE soporta: java, kotlin, python. Verifica el campo 'lang' en [project]"
            },
            ForgeError::CyclicDependency { .. } => {
                "💡 Revisa las secciones [tasks.*.depends-on] en tu forge.toml para romper el ciclo"
            },
            ForgeError::TaskNotFound { .. } => {
                "💡 Lista las tareas disponibles con 'forge info' o revisa la sección [tasks] de forge.toml"
            },
            ForgeError::TaskFailed { .. } => {
                "💡 Revisa la salida del compilador arriba. Usa 'forge build --verbose' para más detalle"
            },
            ForgeError::CommandNotFound { command } => {
                let c = command.as_str();
                if str_eq(c, "javac") || str_eq(c, "java") {
                    "💡 Instala JDK 17+: https://adoptium.net/ y asegúrate que 'javac' está en PATH"
                } else if str_eq(c, "kotlinc") {
                    "💡 Instala Kotlin: https://kotlinlang.org/docs/command-line.html"
                } else if str_eq(c, "python") || str_eq(c, "python3") || str_eq(c, "pip") {
                    "💡 Instala Python 3.12+: https://www.python.org/downloads/"
                } else if str_eq(c, "pytest") {
                    "💡 Instala pytest: pip install pytest"
                } else {
                    "💡 Verifica que el comando está instalado y accesible en tu PATH del sistema"
                }
            },
            ForgeError::TaskTimeout { .. } => {
                "💡 Considera aumentar el timeout o dividir la tarea en sub-tareas más pequeñas"
            },
            ForgeError::DependencyResolutionFailed { .. } => {
                "💡 Verifica el formato en [dependencies]: \"groupId:artifactId\" = \"versión\". Ejemplo: \"com.google.gson:gson\" = \"2.11.0\""
            },
            ForgeError::DownloadError { .. } => {
                "💡 Verifica tu conexión a internet y que la dependencia exista en Maven Central / PyPI"
            },
            ForgeError::IoError { .. } => {
                "💡 Verifica permisos de escritura en el directorio del proyecto y espacio disponible en disco"
            },
            ForgeError::CacheCorrupted { .. } => {
                "💡 Ejecuta 'forge clean' para eliminar la caché y reconstruir desde cero"
            },
        }
    }
}

} // verus!
