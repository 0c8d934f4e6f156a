//! Where the kube config lives, given the home directory.

use vstd::prelude::*;

verus! {

/// `dir` joined with `name`: with a `/` between them unless `dir` is empty or
/// ends in one.
pub open spec fn join_spec(dir: Seq<char>, name: Seq<char>) -> Seq<char> {
    if dir.len() == 0 {
        name
    } else if dir.last() == '/' {
        dir + name
    } else {
        dir + seq!['/'] + name
    }
}

fn join(dir: &str, name: &str) -> (r: String)
    ensures
        r@ == join_spec(dir@, name@),
{
    let n = dir.unicode_len();
    let mut r = String::from_str(dir);
    if n > 0 && dir.get_char(n - 1) != '/' {
        let slash = "/";
        proof {
            reveal_strlit("/");
        }
        r.append(slash);
    }
    r.append(name);
    assert(r@ =~= join_spec(dir@, name@));
    r
}

/// The kube directory: `.kube` under the home directory `home`.
pub fn kube_dir(home: &str) -> (r: String)
    ensures
        r@ == join_spec(home@, ".kube"@),
{
    join(home, ".kube")
}

/// The kube config file: `config` under the kube directory of `home`.
pub fn config_path(home: &str) -> (r: String)
    ensures
        r@ == join_spec(join_spec(home@, ".kube"@), "config"@),
{
    let dir = kube_dir(home);
    join(dir.as_str(), "config")
}

} // verus!
