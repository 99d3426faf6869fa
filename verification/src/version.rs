//! Build and release metadata for CLI output.

use vstd::prelude::*;
use vstd::string::StringExecFns;

verus! {

/// The long `--version` text for package version `pkg_version` built from
/// git revision `revision` (when known).
pub open spec fn long_version_text(pkg_version: Seq<char>, revision: Option<Seq<char>>) -> Seq<
    char,
> {
    "llmfit "@ + pkg_version + match revision {
        Some(sha) => " (build "@ + sha + ")"@,
        None => " (build: unknown)"@,
    }
}

/// `clap` long `--version` text (includes human-readable build hint).
pub fn long_version(pkg_version: &str, revision: Option<&str>) -> (res: String)
    ensures
        res@ == long_version_text(
            pkg_version@,
            match revision {
                Some(sha) => Some(sha@),
                None => None,
            },
        ),
{
    let mut base = String::from_str("llmfit ");
    base.append(pkg_version);
    match revision {
        Some(sha) => {
            base.append(" (build ");
            base.append(sha);
            base.append(")");
        },
        None => {
            base.append(" (build: unknown)");
        },
    }
    base
}

/// The version text names the package version and, when known, the revision
/// it was built from: it starts `llmfit <version>`, a known revision can be
/// read back from it, and it never reads as an unknown build then.
pub proof fn lemma_long_version_names_revision(
    pkg_version: Seq<char>,
    sha: Seq<char>,
    other: Seq<char>,
)
    ensures
        long_version_text(pkg_version, Some(sha)).subrange(0, 7 + pkg_version.len() as int)
            == "llmfit "@ + pkg_version,
        long_version_text(pkg_version, Some(sha)) == long_version_text(pkg_version, Some(other))
            ==> sha == other,
        long_version_text(pkg_version, Some(sha)) != long_version_text(pkg_version, None),
{
    reveal_strlit("llmfit ");
    reveal_strlit(" (build ");
    reveal_strlit(")");
    reveal_strlit(" (build: unknown)");
    let head = "llmfit "@ + pkg_version;
    let x = long_version_text(pkg_version, Some(sha));
    let y = long_version_text(pkg_version, Some(other));
    let z = long_version_text(pkg_version, None);
    assert(x == head + (" (build "@ + sha + ")"@));
    assert(x.subrange(0, 7 + pkg_version.len() as int) =~= head);
    if x == y {
        assert(y == head + (" (build "@ + other + ")"@));
        assert(sha =~= x.subrange(head.len() + 8int, head.len() + 8 + sha.len() as int));
        assert(other =~= y.subrange(head.len() + 8int, head.len() + 8 + other.len() as int));
    }
    assert(z == head + " (build: unknown)"@);
    assert(x[head.len() + 7int] == ' ');
    assert(z[head.len() + 7int] == ':');
}

} // verus!
