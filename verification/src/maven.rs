//! Maven coordinates and the addresses that follow from them.

use vstd::prelude::*;
use vstd::string::StringExecFns;
use crate::error::{ForgeError, ForgeResult};
use crate::text::{chars_of, piece, string_of};

verus! {

/// A dependency in Maven's terms: group, artifact and version.
#[derive(Debug, Clone, Hash, PartialEq, Eq)]
pub struct MavenCoordinate {
    pub group_id: String,
    pub artifact_id: String,
    pub version: String,
}

/// How often `c` occurs in `s`.
pub open spec fn count_char(s: Seq<char>, c: char) -> nat
    decreases s.len(),
{
    if s.len() == 0 {
        0
    } else {
        count_char(s.drop_last(), c) + if s.last() == c {
            1nat
        } else {
            0nat
        }
    }
}

/// `s` with every dot turned into a slash.
pub open spec fn dots_to_slashes(s: Seq<char>) -> Seq<char> {
    Seq::new(s.len(), |i: int| if s[i] == '.' { '/' } else { s[i] })
}

/// The message for a key that is not of the form group, colon, artifact.
pub open spec fn bad_key_text(key: Seq<char>) -> Seq<char> {
    "'"@ + key + "' — Formato esperado: 'groupId:artifactId'"@
}

/// The directory of an artifact's version in Maven Central.
pub open spec fn base_text(group: Seq<char>, artifact: Seq<char>, version: Seq<char>) -> Seq<char> {
    "https://repo1.maven.org/maven2"@ + "/"@ + dots_to_slashes(group) + "/"@ + artifact + "/"@ + version + "/"@
        + artifact + "-"@ + version
}

/// A text counts no `c` exactly when none of its characters is `c`.
proof fn lemma_count_zero(s: Seq<char>, c: char)
    ensures
        count_char(s, c) == 0 <==> forall|k: int| 0 <= k < s.len() ==> s[k] != c,
    decreases s.len(),
{
    if s.len() > 0 {
        lemma_count_zero(s.drop_last(), c);
        if count_char(s, c) == 0 {
            assert forall|k: int| 0 <= k < s.len() implies s[k] != c by {
                if k < s.len() - 1 {
                    assert(s.drop_last()[k] == s[k]);
                }
            }
        }
    }
}

/// Counts the occurrences of `c`.
pub(crate) fn count_of(s: &Vec<char>, c: char) -> (n: usize)
    ensures
        n == count_char(s@, c),
{
    let mut n: usize = 0;
    let mut i: usize = 0;
    while i < s.len()
        invariant
            i <= s@.len(),
            n == count_char(s@.take(i as int), c),
            n <= i,
        decreases s.len() - i,
    {
        proof {
            assert(s@.take(i + 1).drop_last() =~= s@.take(i as int));
        }
        if s[i] == c {
            n = n + 1;
        }
        i = i + 1;
    }
    assert(s@.take(s@.len() as int) =~= s@);
    n
}

/// `s` with every dot turned into a slash.
fn replace_dots(s: &str) -> (r: String)
    ensures
        r@ == dots_to_slashes(s@),
{
    let chars = chars_of(s);
    let mut out: Vec<char> = Vec::new();
    let mut i: usize = 0;
    while i < chars.len()
        invariant
            i <= chars@.len(),
            out@.len() == i,
            forall|k: int| 0 <= k < i ==> out@[k] == dots_to_slashes(chars@)[k],
        decreases chars.len() - i,
    {
        if chars[i] == '.' {
            out.push('/');
        } else {
            out.push(chars[i]);
        }
        i = i + 1;
    }
    string_of(&out)
}

impl MavenCoordinate {
    /// Reads a key of the form group, colon, artifact. A key with no colon
    /// or with more than one is refused.
    pub fn parse(key: &str, version: &str) -> (r: ForgeResult<Self>)
        ensures
            count_char(key@, ':') == 1 ==> (r matches Ok(c) && c.group_id@ + seq![':'] + c.artifact_id@ == key@
                && count_char(c.group_id@, ':') == 0 && c.version@ == version@),
            count_char(key@, ':') != 1 ==> (r matches Err(ForgeError::DependencyResolutionFailed { dependency })
                && dependency@ == bad_key_text(key@)),
    {
        let chars = chars_of(key);
        if count_of(&chars, ':') != 1 {
            let mut dependency = String::from_str("'");
            dependency.append(key);
            dependency.append("' — Formato esperado: 'groupId:artifactId'");
            return Err(ForgeError::DependencyResolutionFailed { dependency });
        }
        let mut i: usize = 0;
        while i < chars.len() && chars[i] != ':'
            invariant
                i <= chars@.len(),
                forall|k: int| 0 <= k < i ==> chars@[k] != ':',
            decreases chars.len() - i,
        {
            i = i + 1;
        }
        proof {
            lemma_count_zero(chars@, ':');
        }
        let group_id = piece(&chars, 0, i);
        let artifact_id = piece(&chars, i + 1, chars.len());
        proof {
            lemma_count_zero(group_id@, ':');
        }
        Ok(MavenCoordinate { group_id, artifact_id, version: String::from_str(version) })
    }

    /// The directory and base name of the artifact's files in Maven Central.
    fn base(&self) -> (r: String)
        ensures
            r@ == base_text(self.group_id@, self.artifact_id@, self.version@),
    {
        let mut r = String::from_str("https://repo1.maven.org/maven2");
        r.append("/");
        r.append(replace_dots(self.group_id.as_str()).as_str());
        r.append("/");
        r.append(self.artifact_id.as_str());
        r.append("/");
        r.append(self.version.as_str());
        r.append("/");
        r.append(self.artifact_id.as_str());
        r.append("-");
        r.append(self.version.as_str());
        r
    }

    /// The address of the JAR in Maven Central.
    pub fn jar_url(&self) -> (r: String)
        ensures
            r@ == base_text(self.group_id@, self.artifact_id@, self.version@) + ".jar"@,
    {
        let mut r = self.base();
        r.append(".jar");
        r
    }

    /// The address of the POM in Maven Central.
    pub fn pom_url(&self) -> (r: String)
        ensures
            r@ == base_text(self.group_id@, self.artifact_id@, self.version@) + ".pom"@,
    {
        let mut r = self.base();
        r.append(".pom");
        r
    }

    /// The file name of the JAR.
    pub fn jar_filename(&self) -> (r: String)
        ensures
            r@ == self.artifact_id@ + "-"@ + self.version@ + ".jar"@,
    {
        let mut r = self.artifact_id.clone();
        r.append("-");
        r.append(self.version.as_str());
        r.append(".jar");
        r
    }

    /// Group, artifact and version with colons between.
    pub fn display(&self) -> (r: String)
        ensures
            r@ == self.group_id@ + ":"@ + self.artifact_id@ + ":"@ + self.version@,
    {
        let mut r = self.group_id.clone();
        r.append(":");
        r.append(self.artifact_id.as_str());
        r.append(":");
        r.append(self.version.as_str());
        r
    }
}

} // verus!
