//! Path decisions of the native build: where to look for `llama.cpp`, how to
//! undo Windows verbatim prefixes, and which CUDA import-library directory
//! belongs to a target architecture.
//!
//! Paths are handled as text with `/` as the separator, the way `Path` treats
//! them on Unix hosts.

use vstd::prelude::*;
use crate::text::{chars_of, push_chars, string_from_chars};

verus! {

/// `rel` appended to `base` as `PathBuf::join` does for a relative `rel`: a
/// separator goes between them unless `base` is empty or already ends in one.
pub open spec fn join_path(base: Seq<char>, rel: Seq<char>) -> Seq<char> {
    if base.len() > 0 && base.last() != '/' {
        base + seq!['/'] + rel
    } else {
        base + rel
    }
}

/// Joins a relative path onto a base path.
pub fn join(base: &str, rel: &str) -> (r: String)
    ensures
        r@ == join_path(base@, rel@),
{
    let b = chars_of(base);
    let mut out = string_from_chars(b.as_slice());
    if b.len() > 0 && b[b.len() - 1] != '/' {
        crate::text::push_char(&mut out, '/');
    }
    let r = chars_of(rel);
    push_chars(&mut out, r.as_slice());
    assert(out@ =~= join_path(base@, rel@));
    out
}

/// The places searched for a `llama.cpp` checkout, relative to the crate's
/// manifest directory, in the order they are tried.
pub open spec fn llama_cpp_candidate_paths(manifest_dir: Seq<char>) -> Seq<Seq<char>> {
    seq![
        join_path(manifest_dir, "../../cpp/llama.cpp-mainline"@),
        join_path(manifest_dir, "../llama.cpp-mainline"@),
        join_path(manifest_dir, "../../cpp/llama.cpp"@),
        join_path(manifest_dir, "../llama.cpp"@),
    ]
}

/// The `llama.cpp` checkouts to look for, mainline checkouts first.
pub fn llama_cpp_candidates(manifest_dir: &str) -> (r: Vec<String>)
    ensures
        r@.map_values(|p: String| p@) == llama_cpp_candidate_paths(manifest_dir@),
{
    let mut v: Vec<String> = Vec::new();
    v.push(join(manifest_dir, "../../cpp/llama.cpp-mainline"));
    v.push(join(manifest_dir, "../llama.cpp-mainline"));
    v.push(join(manifest_dir, "../../cpp/llama.cpp"));
    v.push(join(manifest_dir, "../llama.cpp"));
    assert(v@.map_values(|p: String| p@) =~= llama_cpp_candidate_paths(manifest_dir@));
    v
}

/// `s` starts with `p`.
pub open spec fn has_prefix(s: Seq<char>, p: Seq<char>) -> bool {
    p.len() <= s.len() && s.take(p.len() as int) == p
}

/// The verbatim UNC prefix `\\?\UNC\`.
pub open spec fn verbatim_unc_prefix() -> Seq<char> {
    seq!['\\', '\\', '?', '\\', 'U', 'N', 'C', '\\']
}

/// The verbatim prefix `\\?\`.
pub open spec fn verbatim_prefix() -> Seq<char> {
    seq!['\\', '\\', '?', '\\']
}

/// A path without its Windows verbatim prefix: `\\?\UNC\server\share`
/// becomes `\\server\share` and `\\?\C:\dir` becomes `C:\dir`; other paths
/// are unchanged.
pub open spec fn strip_verbatim(s: Seq<char>) -> Seq<char> {
    if has_prefix(s, verbatim_unc_prefix()) {
        seq!['\\', '\\'] + s.skip(8)
    } else if has_prefix(s, verbatim_prefix()) {
        s.skip(4)
    } else {
        s
    }
}

fn starts_with(s: &[char], p: &[char]) -> (r: bool)
    ensures
        r == has_prefix(s@, p@),
{
    if p.len() > s.len() {
        return false;
    }
    let mut i: usize = 0;
    while i < p.len()
        invariant
            i <= p.len() <= s.len(),
            forall|k: int| 0 <= k < i ==> s@[k] == p@[k],
        decreases p.len() - i,
    {
        if s[i] != p[i] {
            assert(s@.take(p.len() as int)[i as int] != p@[i as int]);
            return false;
        }
        i = i + 1;
    }
    assert(s@.take(p.len() as int) =~= p@);
    true
}

fn chars_from(s: &[char], start: usize) -> (r: Vec<char>)
    requires
        start <= s.len(),
    ensures
        r@ == s@.skip(start as int),
{
    let mut out: Vec<char> = Vec::new();
    let mut i = start;
    while i < s.len()
        invariant
            start <= i <= s.len(),
            out@ == s@.subrange(start as int, i as int),
        decreases s.len() - i,
    {
        out.push(s[i]);
        assert(s@.subrange(start as int, i + 1) =~= s@.subrange(start as int, i as int).push(
            s@[i as int],
        ));
        i = i + 1;
    }
    assert(s@.subrange(start as int, s.len() as int) =~= s@.skip(start as int));
    out
}

/// Removes a Windows verbatim prefix from a path.
pub fn strip_windows_verbatim_prefix(dir: &str) -> (r: String)
    ensures
        r@ == strip_verbatim(dir@),
{
    let s = chars_of(dir);
    let unc = vec!['\\', '\\', '?', '\\', 'U', 'N', 'C', '\\'];
    assert(unc@ =~= verbatim_unc_prefix());
    let plain = vec!['\\', '\\', '?', '\\'];
    assert(plain@ =~= verbatim_prefix());
    if starts_with(s.as_slice(), unc.as_slice()) {
        let mut out = String::new();
        out.append("\\\\");
        let rest = chars_from(s.as_slice(), 8);
        push_chars(&mut out, rest.as_slice());
        proof {
            reveal_strlit("\\\\");
        }
        assert(out@ =~= strip_verbatim(dir@));
        out
    } else if starts_with(s.as_slice(), plain.as_slice()) {
        let rest = chars_from(s.as_slice(), 4);
        string_from_chars(rest.as_slice())
    } else {
        string_from_chars(s.as_slice())
    }
}

/// The index of the last `/` in `s`, or -1.
pub open spec fn last_slash(s: Seq<char>) -> int
    decreases s.len(),
{
    if s.len() == 0 {
        -1
    } else if s.last() == '/' {
        s.len() - 1
    } else {
        last_slash(s.drop_last())
    }
}

proof fn lemma_last_slash(s: Seq<char>)
    ensures
        -1 <= last_slash(s) < s.len(),
        last_slash(s) >= 0 ==> s[last_slash(s)] == '/',
        forall|k: int| last_slash(s) < k < s.len() ==> s[k] != '/',
    decreases s.len(),
{
    if s.len() > 0 && s.last() != '/' {
        lemma_last_slash(s.drop_last());
        assert forall|k: int| last_slash(s) < k < s.len() implies s[k] != '/' by {
            if k < s.len() - 1 {
                assert(s[k] == s.drop_last()[k]);
            }
        }
    }
}

/// The final component of a path, as `Path::file_name` gives it on Unix:
/// trailing separators and `.` components are passed over, and a final
/// `..` or a path without components has none.
pub open spec fn file_name(s: Seq<char>) -> Option<Seq<char>>
    decreases s.len(),
{
    if s.len() == 0 {
        None
    } else if s.last() == '/' {
        file_name(s.drop_last())
    } else {
        let k = last_slash(s);
        let seg = s.subrange(k + 1, s.len() as int);
        if seg == seq!['.'] {
            if 0 <= k + 1 < s.len() {
                file_name(s.take(k + 1))
            } else {
                None
            }
        } else if seg == seq!['.', '.'] {
            None
        } else {
            Some(seg)
        }
    }
}

fn file_name_bounds(s: &[char]) -> (r: Option<(usize, usize)>)
    ensures
        match r {
            Some((a, b)) => a <= b <= s.len() && file_name(s@) == Some(s@.subrange(a as int, b as int)),
            None => file_name(s@) is None,
        },
{
    let mut end = s.len();
    assert(s@.take(end as int) =~= s@);
    loop
        invariant
            end <= s.len(),
            file_name(s@) == file_name(s@.take(end as int)),
        decreases end,
    {
        let ghost t = s@.take(end as int);
        if end == 0 {
            return None;
        }
        if s[end - 1] == '/' {
            assert(t.drop_last() =~= s@.take(end - 1));
            end = end - 1;
        } else {
            let mut start = end;
            while start > 0 && s[start - 1] != '/'
                invariant
                    start <= end <= s.len(),
                    forall|k: int| start <= k < end ==> s@[k] != '/',
                decreases start,
            {
                start = start - 1;
            }
            proof {
                lemma_last_slash(t);
                assert(last_slash(t) == start - 1) by {
                    if last_slash(t) > start - 1 {
                        assert(t[last_slash(t)] == '/');
                    } else if last_slash(t) < start - 1 {
                        assert(t[start - 1] == s@[start - 1]);
                    }
                }
                assert(t.subrange(start as int, end as int) =~= s@.subrange(
                    start as int,
                    end as int,
                ));
            }
            let len = end - start;
            if len == 1 && s[start] == '.' {
                assert(s@.subrange(start as int, end as int) =~= seq!['.']);
                if start == 0 {
                    assert(t.take(0).len() == 0);
                    assert(file_name(t.take(0)) is None);
                    return None;
                }
                assert(t.take(start as int) =~= s@.take(start as int));
                end = start;
            } else if len == 2 && s[start] == '.' && s[start + 1] == '.' {
                assert(s@.subrange(start as int, end as int) =~= seq!['.', '.']);
                return None;
            } else {
                assert(s@.subrange(start as int, end as int) != seq!['.']) by {
                    if len == 1 {
                        assert(s@.subrange(start as int, end as int)[0] != '.');
                    }
                }
                assert(s@.subrange(start as int, end as int) != seq!['.', '.']) by {
                    if len == 2 {
                        assert(s@.subrange(start as int, end as int)[0] != '.' || s@.subrange(
                            start as int,
                            end as int,
                        )[1] != '.');
                    }
                }
                return Some((start, end));
            }
        }
    }
}

/// The import-library directory name of a CUDA toolkit for a target
/// architecture.
pub open spec fn cuda_arch_dir_name(target_arch: Seq<char>) -> Option<Seq<char>> {
    if target_arch == "x86_64"@ {
        Some("x64"@)
    } else if target_arch == "aarch64"@ {
        Some("arm64"@)
    } else {
        None
    }
}

/// The architecture directory to look for under `dir`: none for an unknown
/// architecture or when `dir` already is that directory.
pub open spec fn cuda_arch_candidate(dir: Seq<char>, target_arch: Seq<char>) -> Option<Seq<char>> {
    match cuda_arch_dir_name(target_arch) {
        None => None,
        Some(name) => if file_name(dir) == Some(name) {
            None
        } else {
            Some(join_path(dir, name))
        },
    }
}

fn str_eq(a: &str, b: &str) -> (r: bool)
    ensures
        r == (a@ == b@),
{
    let x = chars_of(a);
    let y = chars_of(b);
    if x.len() != y.len() {
        return false;
    }
    let mut i: usize = 0;
    while i < x.len()
        invariant
            i <= x.len() == y.len(),
            x@ == a@,
            y@ == b@,
            forall|k: int| 0 <= k < i ==> x@[k] == y@[k],
        decreases x.len() - i,
    {
        if x[i] != y[i] {
            return false;
        }
        i = i + 1;
    }
    assert(x@ =~= y@);
    true
}

/// The directory of the CUDA import libraries for `target_arch` below `dir`,
/// before checking that it exists.
pub fn windows_cuda_arch_candidate(dir: &str, target_arch: &str) -> (r: Option<String>)
    ensures
        match r {
            Some(p) => cuda_arch_candidate(dir@, target_arch@) == Some(p@),
            None => cuda_arch_candidate(dir@, target_arch@) is None,
        },
{
    let name: &str = if str_eq(target_arch, "x86_64") {
        "x64"
    } else if str_eq(target_arch, "aarch64") {
        "arm64"
    } else {
        return None;
    };
    let d = chars_of(dir);
    let n = chars_of(name);
    match file_name_bounds(d.as_slice()) {
        Some((a, b)) => {
            let mut same = b - a == n.len();
            let mut i: usize = 0;
            while same && i < n.len()
                invariant
                    a <= b <= d.len(),
                    same ==> b - a == n.len(),
                    i <= n.len(),
                    same ==> forall|k: int| 0 <= k < i ==> d@[a + k] == n@[k],
                    !same ==> d@.subrange(a as int, b as int) != n@,
                decreases n.len() - i,
            {
                if d[a + i] != n[i] {
                    assert(d@.subrange(a as int, b as int)[i as int] != n@[i as int]);
                    same = false;
                }
                i = i + 1;
            }
            if same {
                assert(d@.subrange(a as int, b as int) =~= n@);
                return None;
            }
        },
        None => {},
    }
    Some(join(dir, name))
}


/// A verbatim UNC path `\\?\UNC\server\share` loses `?\UNC\` and keeps its
/// leading `\\`; another verbatim path `\\?\rest` becomes `rest`; a path
/// without the verbatim prefix is unchanged.
pub proof fn lemma_strip_verbatim_cases(p: Seq<char>)
    ensures
        strip_verbatim(seq!['\\', '\\', '?', '\\', 'U', 'N', 'C', '\\'] + p) == seq!['\\', '\\']
            + p,
        !(p.len() >= 4 && p.take(4) == seq!['U', 'N', 'C', '\\']) ==> strip_verbatim(
            seq!['\\', '\\', '?', '\\'] + p,
        ) == p,
        !(p.len() >= 4 && p.take(4) == seq!['\\', '\\', '?', '\\']) ==> strip_verbatim(p) == p,
{
    let unc = seq!['\\', '\\', '?', '\\', 'U', 'N', 'C', '\\'] + p;
    assert(unc.take(8) =~= verbatim_unc_prefix());
    assert(unc.skip(8) =~= p);
    let v = seq!['\\', '\\', '?', '\\'] + p;
    assert(v.take(4) =~= verbatim_prefix());
    assert(v.skip(4) =~= p);
    if has_prefix(v, verbatim_unc_prefix()) {
        assert(p.take(4) =~= seq!['U', 'N', 'C', '\\']) by {
            assert forall|i: int| 0 <= i < 4 implies p.take(4)[i] == v.take(8)[i + 4] by {}
        }
    }
    if has_prefix(p, verbatim_unc_prefix()) {
        assert(p.take(4) =~= seq!['\\', '\\', '?', '\\']) by {
            assert forall|i: int| 0 <= i < 4 implies p.take(4)[i] == p.take(8)[i] by {}
        }
    }
    if has_prefix(p, verbatim_prefix()) {
        assert(p.take(4) =~= seq!['\\', '\\', '?', '\\']);
    }
}

/// The file name of `dir/seg`, with or without a trailing separator, is
/// `seg` when `seg` is a plain component: non-empty, without a separator,
/// and neither `.` nor `..`.
pub proof fn lemma_file_name_last_component(dir: Seq<char>, seg: Seq<char>)
    requires
        seg.len() > 0,
        forall|i: int| 0 <= i < seg.len() ==> seg[i] != '/',
        seg != seq!['.'],
        seg != seq!['.', '.'],
    ensures
        file_name(dir + seq!['/'] + seg) == Some(seg),
        file_name(dir + seq!['/'] + seg + seq!['/']) == Some(seg),
{
    let s = dir + seq!['/'] + seg;
    lemma_last_slash(s);
    let k = last_slash(s);
    let j = dir.len() as int;
    assert(s[j] == '/');
    assert forall|i: int| j < i < s.len() implies s[i] != '/' by {
        assert(s[i] == seg[i - j - 1]);
    }
    assert(k == j);
    assert(s.subrange(k + 1, s.len() as int) =~= seg);
    assert(s.last() == seg.last());
    let t = s + seq!['/'];
    assert(t.drop_last() =~= s);
}

/// For `x86_64` the directory looked for is `x64`, for `aarch64` it is
/// `arm64`, each joined onto `dir` unless `dir` already ends in it; other
/// architectures have none.
pub proof fn lemma_cuda_arch_candidate_cases(dir: Seq<char>, target_arch: Seq<char>)
    ensures
        target_arch == "x86_64"@ ==> cuda_arch_candidate(dir, target_arch) == if file_name(dir)
            == Some("x64"@) {
            None
        } else {
            Some(join_path(dir, "x64"@))
        },
        target_arch == "aarch64"@ ==> cuda_arch_candidate(dir, target_arch) == if file_name(dir)
            == Some("arm64"@) {
            None
        } else {
            Some(join_path(dir, "arm64"@))
        },
        target_arch != "x86_64"@ && target_arch != "aarch64"@ ==> cuda_arch_candidate(
            dir,
            target_arch,
        ) is None,
{
    reveal_strlit("x86_64");
    reveal_strlit("aarch64");
    assert("aarch64"@.len() != "x86_64"@.len());
}

} // verus!
