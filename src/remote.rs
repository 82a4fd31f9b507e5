//! The remote session's decisions: which credentials to try and in what order, where a
//! file lands on the remote host, and the shell command that creates its directory.

use crate::scan::last_index;
use crate::scan::find_last;
use vstd::prelude::*;

verus! {

/// A way to authenticate, in the order they are tried.
#[derive(Debug, Clone, Copy, PartialEq, Eq, Structural)]
pub enum AuthMethod {
    /// A running credential agent.
    Agent,
    /// The default key pair in the user's key directory.
    KeyFile,
    /// A password taken from the environment.
    EnvPassword,
    /// A password typed by the operator.
    Prompt,
}

/// The methods worth trying: the agent always, the key pair when both of its files are
/// there, the environment's password when it is set, and the prompt last.
pub open spec fn auth_plan_spec(keys_present: bool, env_password: bool) -> Seq<AuthMethod> {
    seq![AuthMethod::Agent] + (if keys_present {
        seq![AuthMethod::KeyFile]
    } else {
        Seq::empty()
    }) + (if env_password {
        seq![AuthMethod::EnvPassword]
    } else {
        Seq::empty()
    }) + seq![AuthMethod::Prompt]
}

/// The authentication methods to try, in order, stopping at the first that succeeds.
pub fn auth_plan(keys_present: bool, env_password: bool) -> (r: Vec<AuthMethod>)
    ensures
        r@ == auth_plan_spec(keys_present, env_password),
{
    let mut plan: Vec<AuthMethod> = Vec::new();
    plan.push(AuthMethod::Agent);
    if keys_present {
        plan.push(AuthMethod::KeyFile);
    }
    if env_password {
        plan.push(AuthMethod::EnvPassword);
    }
    plan.push(AuthMethod::Prompt);
    assert(plan@ =~= auth_plan_spec(keys_present, env_password));
    plan
}

/// What follows one authentication attempt.
#[derive(Debug, Clone, Copy, PartialEq, Eq, Structural)]
pub enum AuthStep {
    /// The attempt succeeded: no further method is tried.
    Authenticated,
    /// The attempt failed: try this method next.
    Try(AuthMethod),
    /// Every method of the plan failed: the run cannot start.
    Fail,
}

/// The step after attempting `plan[tried]`: stop on success, else go on with the next
/// method of the plan, and fail once the last one has failed.
pub fn auth_step(plan: &Vec<AuthMethod>, tried: usize, ok: bool) -> (r: AuthStep)
    requires
        tried < plan@.len(),
    ensures
        ok ==> r == AuthStep::Authenticated,
        !ok && tried + 1 < plan@.len() ==> r == AuthStep::Try(plan@[tried + 1]),
        !ok && tried + 1 == plan@.len() ==> r == AuthStep::Fail,
{
    if ok {
        AuthStep::Authenticated
    } else if tried < plan.len() - 1 {
        AuthStep::Try(plan[tried + 1])
    } else {
        AuthStep::Fail
    }
}

/// `rel` below `root`: `rel` alone when `root` is empty, else joined by one `/`.
pub open spec fn join_spec(root: Seq<char>, rel: Seq<char>) -> Seq<char> {
    if root.len() == 0 {
        rel
    } else if root.last() == '/' {
        root + rel
    } else {
        root + seq!['/'] + rel
    }
}

/// Joins a relative path to a root directory.
pub fn join_path(root: &str, rel: &str) -> (r: String)
    ensures
        r@ == join_spec(root@, rel@),
{
    let n = root.unicode_len();
    if n == 0 {
        return String::from_str(rel);
    }
    let mut out = String::from_str(root);
    if root.get_char(n - 1) != '/' {
        let sep = "/";
        proof {
            reveal_strlit("/");
        }
        out.append(sep);
    }
    out.append(rel);
    out
}

/// The directory that holds `p`: what precedes its last `/`, `/` itself for a file at
/// the top of the tree, and the empty path when there is no `/`.
pub open spec fn parent_spec(p: Seq<char>) -> Seq<char> {
    let k = last_index(p, '/');
    if k < 0 {
        Seq::empty()
    } else if k == 0 {
        seq!['/']
    } else {
        p.subrange(0, k)
    }
}

/// The directory that holds the path `p`.
pub fn parent_dir(p: &str) -> (r: String)
    ensures
        r@ == parent_spec(p@),
{
    match find_last(p, '/') {
        None => String::new(),
        Some(k) => {
            if k == 0 {
                let root = "/";
                proof {
                    reveal_strlit("/");
                }
                String::from_str(root)
            } else {
                String::from_str(p.substring_char(0, k))
            }
        },
    }
}

/// `s` with each `'` written as `'\''`, for use between single quotes.
pub open spec fn shell_escape(s: Seq<char>) -> Seq<char>
    decreases s.len(),
{
    if s.len() == 0 {
        Seq::empty()
    } else {
        shell_escape(s.drop_last()) + if s.last() == '\'' {
            seq!['\'', '\\', '\'', '\'']
        } else {
            seq![s.last()]
        }
    }
}

/// `s` as one single-quoted shell word.
pub open spec fn shell_quote(s: Seq<char>) -> Seq<char> {
    seq!['\''] + shell_escape(s) + seq!['\'']
}

/// `s` as one single-quoted shell word, whatever characters it holds.
pub fn quote_for_shell(s: &str) -> (r: String)
    ensures
        r@ == shell_quote(s@),
{
    let q = "'";
    let esc = "'\\''";
    proof {
        reveal_strlit("'");
        reveal_strlit("'\\''");
    }
    let n = s.unicode_len();
    let mut out = String::from_str(q);
    let mut i: usize = 0;
    while i < n
        invariant
            n == s@.len(),
            i <= n,
            q@ == seq!['\''],
            esc@ == seq!['\'', '\\', '\'', '\''],
            out@ == seq!['\''] + shell_escape(s@.take(i as int)),
        decreases n - i,
    {
        assert(s@.take(i + 1).drop_last() =~= s@.take(i as int));
        if s.get_char(i) == '\'' {
            out.append(esc);
        } else {
            let one = s.substring_char(i, i + 1);
            assert(one@ =~= seq![s@[i as int]]);
            out.append(one);
        }
        i = i + 1;
        assert(out@ =~= seq!['\''] + shell_escape(s@.take(i as int)));
    }
    assert(s@.take(n as int) =~= s@);
    out.append(q);
    assert(out@ =~= shell_quote(s@));
    out
}

/// The shell command that creates directory `dir` and its parents, and succeeds when it
/// already exists.
pub open spec fn mkdir_command_spec(dir: Seq<char>) -> Seq<char> {
    "mkdir -p "@ + shell_quote(dir)
}

/// The remote command that creates `dir` and any missing parents.
pub fn mkdir_command(dir: &str) -> (r: String)
    ensures
        r@ == mkdir_command_spec(dir@),
{
    let mut out = String::from_str("mkdir -p ");
    let quoted = quote_for_shell(dir);
    out.append(quoted.as_str());
    out
}

} // verus!
