//! Parsing of destination strings: a bare local path, or `[user@]host:path`.

use vstd::prelude::*;

verus! {

/// How many times `c` occurs in `s`.
pub open spec fn count_char(s: Seq<char>, c: char) -> nat
    decreases s.len(),
{
    if s.len() == 0 {
        0
    } else {
        count_char(s.drop_last(), c) + if s.last() == c {
            1nat
        } else {
            0nat
        }
    }
}

/// True when some `:` in `s` comes after an `@`: the shape of a remote destination.
pub open spec fn remote_syntax(s: Seq<char>) -> bool
    decreases s.len(),
{
    if s.len() == 0 {
        false
    } else {
        remote_syntax(s.drop_last()) || (s.last() == ':' && count_char(s.drop_last(), '@') > 0)
    }
}

/// `s` is `a`, then `sep`, then `b`, and `sep` does not occur in `a`.
pub open spec fn split_at_first(s: Seq<char>, sep: char, a: Seq<char>, b: Seq<char>) -> bool {
    &&& a + seq![sep] + b == s
    &&& count_char(a, sep) == 0
}

#[derive(Debug, Clone, Copy, PartialEq, Eq, Structural)]
pub enum DestinationError {
    /// A remote destination must hold exactly one `:`.
    InvalidFormat,
}

/// Where a run writes: a local directory, or a path on a remote host.
#[derive(Debug, Clone)]
pub enum Destination {
    Local { path: String },
    Remote { ssh_dest: String, path: String },
}

/// Splits `s` around its only occurrence of `sep`; `None` unless `sep` occurs exactly once.
pub fn split_once_unique(s: &str, sep: char) -> (r: Option<(String, String)>)
    ensures
        r is Some <==> count_char(s@, sep) == 1,
        r matches Some((a, b)) ==> split_at_first(s@, sep, a@, b@),
{
    let n = s.unicode_len();
    let mut i: usize = 0;
    let mut count: usize = 0;
    let mut pos: usize = 0;
    while i < n
        invariant
            n == s@.len(),
            i <= n,
            count <= i,
            count == count_char(s@.take(i as int), sep),
            count >= 1 ==> pos < i && s@[pos as int] == sep && count_char(
                s@.take(pos as int),
                sep,
            ) == 0,
        decreases n - i,
    {
        let c = s.get_char(i);
        assert(s@.take(i + 1).drop_last() =~= s@.take(i as int));
        if c == sep {
            if count == 0 {
                pos = i;
            }
            count = count + 1;
        }
        i = i + 1;
    }
    assert(s@.take(n as int) =~= s@);
    if count == 1 {
        let a = s.substring_char(0, pos);
        let b = s.substring_char(pos + 1, n);
        assert(a@ + seq![sep] + b@ =~= s@);
        assert(a@ =~= s@.take(pos as int));
        Some((String::from_str(a), String::from_str(b)))
    } else {
        None
    }
}

/// Splits a remote destination `host_part:path` into its two halves.
pub fn parse_ssh_destination(destination: &str) -> (r: Result<(String, String), DestinationError>)
    ensures
        r is Ok <==> count_char(destination@, ':') == 1,
        r matches Ok((h, p)) ==> split_at_first(destination@, ':', h@, p@),
{
    match split_once_unique(destination, ':') {
        Some(parts) => Ok(parts),
        None => Err(DestinationError::InvalidFormat),
    }
}

/// Splits `user@host`; without exactly one `@` there is no user and the whole is the host.
/// `parse_destination` treats a destination as remote only when an `@` comes before its
/// `:`, so a `host:path` without a user goes to the local backend, and the no-user result
/// here is reached only when the host part holds two or more `@`.
pub fn split_user_host(ssh_dest: &str) -> (r: (Option<String>, String))
    ensures
        count_char(ssh_dest@, '@') == 1 ==> (r.0 matches Some(u) && split_at_first(
            ssh_dest@,
            '@',
            u@,
            r.1@,
        )),
        count_char(ssh_dest@, '@') != 1 ==> r.0 is None && r.1@ == ssh_dest@,
{
    match split_once_unique(ssh_dest, '@') {
        Some((u, h)) => (Some(u), h),
        None => (None, String::from_str(ssh_dest)),
    }
}

/// Whether some `:` in `s` follows an `@`.
pub fn has_remote_syntax(s: &str) -> (r: bool)
    ensures
        r == remote_syntax(s@),
{
    let n = s.unicode_len();
    let mut i: usize = 0;
    let mut seen_at = false;
    let mut found = false;
    while i < n
        invariant
            n == s@.len(),
            i <= n,
            seen_at == (count_char(s@.take(i as int), '@') > 0),
            found == remote_syntax(s@.take(i as int)),
        decreases n - i,
    {
        let c = s.get_char(i);
        assert(s@.take(i + 1).drop_last() =~= s@.take(i as int));
        if c == ':' && seen_at {
            found = true;
        }
        if c == '@' {
            seen_at = true;
        }
        i = i + 1;
    }
    assert(s@.take(n as int) =~= s@);
    found
}

/// Chooses the backend from a destination string: remote when some `:` follows an `@`,
/// and then the string must hold exactly one `:`; local otherwise.
pub fn parse_destination(s: &str) -> (r: Result<Destination, DestinationError>)
    ensures
        !remote_syntax(s@) ==> (r matches Ok(Destination::Local { path }) && path@ == s@),
        remote_syntax(s@) ==> (r is Ok <==> count_char(s@, ':') == 1),
        remote_syntax(s@) && r is Ok ==> (r matches Ok(Destination::Remote { ssh_dest, path })
            && split_at_first(s@, ':', ssh_dest@, path@)),
{
    if has_remote_syntax(s) {
        match parse_ssh_destination(s) {
            Ok((ssh_dest, path)) => Ok(Destination::Remote { ssh_dest, path }),
            Err(e) => Err(e),
        }
    } else {
        Ok(Destination::Local { path: String::from_str(s) })
    }
}

} // verus!
