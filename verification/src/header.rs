use vstd::prelude::*;
use vstd::string::StringExecFns;

verus! {

/// The revision printed when the build does not know its revision.
pub open spec fn spec_unknown() -> Seq<char> {
    seq!['U', 'N', 'K', 'N', 'O', 'W', 'N']
}

/// The banner a program prints when it starts:
/// `rengarde-<name> ver. <version> rev. <revision>`, where the revision is
/// `UNKNOWN` when none is given.
pub open spec fn spec_header(name: Seq<char>, version: Seq<char>, git_rev: Option<Seq<char>>) -> Seq<char> {
    seq!['r', 'e', 'n', 'g', 'a', 'r', 'd', 'e', '-'] + name + seq![' ', 'v', 'e', 'r', '.', ' ']
        + version + seq![' ', 'r', 'e', 'v', '.', ' '] + match git_rev {
        Some(r) => r,
        None => spec_unknown(),
    }
}

/// The start-up banner of a program, as [`spec_header`] says.
pub fn header_line(name: &str, version: &str, git_rev: Option<&str>) -> (r: String)
    ensures
        r@ == spec_header(
            name@,
            version@,
            match git_rev {
                Some(g) => Some(g@),
                None => None,
            },
        ),
{
    proof {
        reveal_strlit("rengarde-");
        reveal_strlit(" ver. ");
        reveal_strlit(" rev. ");
        reveal_strlit("UNKNOWN");
    }
    let mut s = String::from_str("rengarde-");
    s.append(name);
    s.append(" ver. ");
    s.append(version);
    s.append(" rev. ");
    match git_rev {
        Some(g) => s.append(g),
        None => s.append("UNKNOWN"),
    }
    assert(s@ =~= spec_header(
        name@,
        version@,
        match git_rev {
            Some(g) => Some(g@),
            None => None,
        },
    ));
    s
}

} // verus!
