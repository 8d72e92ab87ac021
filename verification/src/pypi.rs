//! What the build core knows of PyPI: the shape of its answers and the
//! addresses it is asked at.

use vstd::prelude::*;
use vstd::string::StringExecFns;
use crate::text::str_eq;

verus! {

/// The part of PyPI's answer that describes a package.
#[derive(Debug, Clone)]
pub struct PypiInfo {
    pub name: String,
    pub version: String,
    pub summary: Option<String>,
}

/// PyPI's answer for a package.
#[derive(Debug, Clone)]
pub struct PypiPackageInfo {
    pub info: PypiInfo,
}

/// Whether a version asks for no version in particular.
pub open spec fn any_version(version: Seq<char>) -> bool {
    version == "*"@ || version.len() == 0
}

/// The address at which PyPI describes a package, or one version of it.
pub open spec fn package_url_text(name: Seq<char>, version: Seq<char>) -> Seq<char> {
    if any_version(version) {
        "https://pypi.org/pypi"@ + "/"@ + name + "/json"@
    } else {
        "https://pypi.org/pypi"@ + "/"@ + name + "/"@ + version + "/json"@
    }
}

/// What pip is asked to install for a dependency.
pub open spec fn requirement_text(name: Seq<char>, version: Seq<char>) -> Seq<char> {
    if any_version(version) {
        name
    } else {
        name + "=="@ + version
    }
}

/// Whether `version` asks for no version in particular: a star or nothing.
pub fn is_any_version(version: &str) -> (r: bool)
    ensures
        r == any_version(version@),
{
    str_eq(version, "*") || version.is_empty()
}

/// The address at which PyPI describes the package, in the given version
/// unless that asks for none in particular.
pub fn package_url(name: &str, version: &str) -> (url: String)
    ensures
        url@ == package_url_text(name@, version@),
{
    let mut url = String::from_str("https://pypi.org/pypi");
    url.append("/");
    url.append(name);
    if !is_any_version(version) {
        url.append("/");
        url.append(version);
    }
    url.append("/json");
    url
}

/// What pip is asked to install: the name, pinned to the version unless
/// that asks for none in particular.
pub fn requirement(name: &str, version: &str) -> (req: String)
    ensures
        req@ == requirement_text(name@, version@),
{
    let mut req = String::from_str(name);
    if !is_any_version(version) {
        req.append("==");
        req.append(version);
    }
    req
}

} // verus!
