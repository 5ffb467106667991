use vstd::prelude::*;
use vstd::string::*;

use crate::text::{chars_of, texts};

verus! {

/// The prefix under which Windows sees the root of the Ubuntu WSL distribution.
pub open spec fn wsl_prefix() -> Seq<char> {
    seq!['\\', '\\', 'w', 's', 'l', '.', 'l', 'o', 'c', 'a', 'l', 'h', 'o', 's', 't', '\\',
        'U', 'b', 'u', 'n', 't', 'u']
}

/// The Windows (UNC) path of a Linux path `p` inside the Ubuntu WSL distribution.
pub fn wsl_path(p: &str) -> (res: String)
    ensures
        res@ == wsl_prefix() + p@,
{
    let mut s = String::from_str("\\\\wsl.localhost\\Ubuntu");
    proof {
        reveal_strlit("\\\\wsl.localhost\\Ubuntu");
        assert(s@ =~= wsl_prefix());
    }
    s.append(p);
    s
}

/// `rel` joined to `base` as a Unix `PathBuf::push` joins them: an absolute
/// `rel` replaces `base`; else a `/` goes between them where `base` is not
/// empty and does not end with one.
pub open spec fn joined(base: Seq<char>, rel: Seq<char>) -> Seq<char> {
    if rel.len() > 0 && rel[0] == '/' {
        rel
    } else if base.len() == 0 || base.last() == '/' {
        base + rel
    } else {
        base + seq!['/'] + rel
    }
}

/// `rel` joined to `base`.
pub fn join_path(base: &String, rel: &str) -> (p: String)
    ensures
        p@ == joined(base@, rel@),
{
    let r = chars_of(rel);
    if r.len() > 0 && r[0] == '/' {
        return String::from_str(rel);
    }
    let b = chars_of(base.as_str());
    let mut p = base.clone();
    if b.len() > 0 && b[b.len() - 1] != '/' {
        p.append("/");
        proof {
            reveal_strlit("/");
        }
    }
    p.append(rel);
    proof {
        assert(p@ =~= joined(base@, rel@));
    }
    p
}

/// The home directory, or `/` where it is unknown.
pub open spec fn home_or_root(home: Option<Seq<char>>) -> Seq<char> {
    match home {
        Some(h) => h,
        None => seq!['/'],
    }
}

/// The home directory, or `/` where it is unknown.
pub fn resolve_home(home: Option<String>) -> (h: String)
    ensures
        h@ == home_or_root(match home { Some(x) => Some(x@), None => None }),
{
    match home {
        Some(h) => h,
        None => {
            let r = String::from_str("/");
            proof {
                reveal_strlit("/");
                assert(r@ =~= seq!['/']);
            }
            r
        },
    }
}

/// The text `.config`.
pub open spec fn dot_config() -> Seq<char> {
    seq!['.', 'c', 'o', 'n', 'f', 'i', 'g']
}

/// The configuration directory: `XDG_CONFIG_HOME` where it is set, else
/// `.config` in the home directory.
pub open spec fn config_dir_of(home: Seq<char>, xdg: Option<Seq<char>>) -> Seq<char> {
    match xdg {
        Some(x) => x,
        None => joined(home, dot_config()),
    }
}

/// The configuration directory.
pub fn config_dir(home: &String, xdg: Option<String>) -> (d: String)
    ensures
        d@ == config_dir_of(home@, match xdg { Some(x) => Some(x@), None => None }),
{
    match xdg {
        Some(x) => x,
        None => {
            let d = join_path(home, ".config");
            proof {
                reveal_strlit(".config");
                assert(".config"@ =~= dot_config());
            }
            d
        },
    }
}

/// `opencode/opencode.jsonc`
pub open spec fn rel_jsonc() -> Seq<char> {
    seq!['o', 'p', 'e', 'n', 'c', 'o', 'd', 'e', '/', 'o', 'p', 'e', 'n', 'c', 'o', 'd', 'e', '.', 'j', 's', 'o', 'n', 'c']
}

/// `opencode/opencode.json`
pub open spec fn rel_json() -> Seq<char> {
    seq!['o', 'p', 'e', 'n', 'c', 'o', 'd', 'e', '/', 'o', 'p', 'e', 'n', 'c', 'o', 'd', 'e', '.', 'j', 's', 'o', 'n']
}

/// `/home/lenovo/.config/`
pub open spec fn lenovo_config() -> Seq<char> {
    seq!['/', 'h', 'o', 'm', 'e', '/', 'l', 'e', 'n', 'o', 'v', 'o', '/', '.', 'c', 'o', 'n', 'f', 'i', 'g', '/']
}

/// The places where a configuration file is looked for, in order.
pub open spec fn candidate_list(home: Seq<char>, dir: Seq<char>) -> Seq<Seq<char>> {
    seq![
        joined(dir, rel_jsonc()),
        joined(dir, rel_json()),
        joined(home, dot_config() + seq!['/'] + rel_jsonc()),
        joined(home, dot_config() + seq!['/'] + rel_json()),
        lenovo_config() + rel_jsonc(),
        lenovo_config() + rel_json(),
    ]
}

/// The file used where no candidate exists: `opencode/opencode.jsonc` in the
/// configuration directory.
pub open spec fn fallback_config(dir: Seq<char>) -> Seq<char> {
    joined(dir, rel_jsonc())
}

/// The places where a configuration file is looked for, given the home and
/// configuration directories.
pub fn candidate_paths(home: &String, dir: &String) -> (ps: Vec<String>)
    ensures
        texts(ps@) == candidate_list(home@, dir@),
{
    proof {
        reveal_strlit("opencode/opencode.jsonc");
        reveal_strlit("opencode/opencode.json");
        reveal_strlit(".config/opencode/opencode.jsonc");
        reveal_strlit(".config/opencode/opencode.json");
        reveal_strlit("/home/lenovo/.config/opencode/opencode.jsonc");
        reveal_strlit("/home/lenovo/.config/opencode/opencode.json");
        assert("opencode/opencode.jsonc"@ =~= rel_jsonc());
        assert("opencode/opencode.json"@ =~= rel_json());
        assert(".config/opencode/opencode.jsonc"@ =~= dot_config() + seq!['/'] + rel_jsonc());
        assert(".config/opencode/opencode.json"@ =~= dot_config() + seq!['/'] + rel_json());
        assert("/home/lenovo/.config/opencode/opencode.jsonc"@ =~= lenovo_config() + rel_jsonc());
        assert("/home/lenovo/.config/opencode/opencode.json"@ =~= lenovo_config() + rel_json());
    }
    let mut ps: Vec<String> = Vec::new();
    ps.push(join_path(dir, "opencode/opencode.jsonc"));
    ps.push(join_path(dir, "opencode/opencode.json"));
    ps.push(join_path(home, ".config/opencode/opencode.jsonc"));
    ps.push(join_path(home, ".config/opencode/opencode.json"));
    ps.push(String::from_str("/home/lenovo/.config/opencode/opencode.jsonc"));
    ps.push(String::from_str("/home/lenovo/.config/opencode/opencode.json"));
    proof {
        assert(texts(ps@) =~= candidate_list(home@, dir@));
    }
    ps
}

/// The third and fourth candidates are `.config/opencode/opencode.jsonc`
/// and `.config/opencode/opencode.json` in the home directory, and the
/// first two are `opencode/opencode.jsonc` and `opencode/opencode.json` in
/// the configuration directory, whatever the other directory is.
pub proof fn law_candidates_in_order(home: Seq<char>, dir: Seq<char>)
    ensures
        candidate_list(home, dir).len() == 6,
        candidate_list(home, dir)[0] == joined(dir, seq![
            'o', 'p', 'e', 'n', 'c', 'o', 'd', 'e', '/',
            'o', 'p', 'e', 'n', 'c', 'o', 'd', 'e', '.', 'j', 's', 'o', 'n', 'c']),
        candidate_list(home, dir)[1] == joined(dir, seq![
            'o', 'p', 'e', 'n', 'c', 'o', 'd', 'e', '/',
            'o', 'p', 'e', 'n', 'c', 'o', 'd', 'e', '.', 'j', 's', 'o', 'n']),
        candidate_list(home, dir)[2] == joined(home, seq![
            '.', 'c', 'o', 'n', 'f', 'i', 'g', '/', 'o', 'p', 'e', 'n', 'c', 'o', 'd', 'e', '/',
            'o', 'p', 'e', 'n', 'c', 'o', 'd', 'e', '.', 'j', 's', 'o', 'n', 'c']),
        candidate_list(home, dir)[3] == joined(home, seq![
            '.', 'c', 'o', 'n', 'f', 'i', 'g', '/', 'o', 'p', 'e', 'n', 'c', 'o', 'd', 'e', '/',
            'o', 'p', 'e', 'n', 'c', 'o', 'd', 'e', '.', 'j', 's', 'o', 'n']),
{
    assert(dot_config() + seq!['/'] + rel_jsonc() =~= seq![
        '.', 'c', 'o', 'n', 'f', 'i', 'g', '/', 'o', 'p', 'e', 'n', 'c', 'o', 'd', 'e', '/',
        'o', 'p', 'e', 'n', 'c', 'o', 'd', 'e', '.', 'j', 's', 'o', 'n', 'c']);
    assert(dot_config() + seq!['/'] + rel_json() =~= seq![
        '.', 'c', 'o', 'n', 'f', 'i', 'g', '/', 'o', 'p', 'e', 'n', 'c', 'o', 'd', 'e', '/',
        'o', 'p', 'e', 'n', 'c', 'o', 'd', 'e', '.', 'j', 's', 'o', 'n']);
}

/// The candidates in the home directory and the fixed ones do not depend
/// on the configuration directory; those in the configuration directory do
/// not depend on the home directory.
pub proof fn law_candidates_independent(home: Seq<char>, home2: Seq<char>, dir: Seq<char>, dir2: Seq<char>)
    ensures
        candidate_list(home, dir).subrange(2, 6) == candidate_list(home, dir2).subrange(2, 6),
        candidate_list(home, dir).take(2) == candidate_list(home2, dir).take(2),
{
    assert(candidate_list(home, dir).subrange(2, 6) =~= candidate_list(home, dir2).subrange(2, 6));
    assert(candidate_list(home, dir).take(2) =~= candidate_list(home2, dir).take(2));
}

/// Under a home directory `h` that is not empty and does not end with `/`,
/// the third candidate is `h` followed by
/// `/.config/opencode/opencode.jsonc`.
pub proof fn law_home_candidate_text(home: Seq<char>, dir: Seq<char>)
    requires
        home.len() > 0,
        home.last() != '/',
    ensures
        candidate_list(home, dir)[2] == home + seq![
            '/', '.', 'c', 'o', 'n', 'f', 'i', 'g', '/', 'o', 'p', 'e', 'n', 'c', 'o', 'd', 'e', '/',
            'o', 'p', 'e', 'n', 'c', 'o', 'd', 'e', '.', 'j', 's', 'o', 'n', 'c'],
        candidate_list(home, dir)[3] == home + seq![
            '/', '.', 'c', 'o', 'n', 'f', 'i', 'g', '/', 'o', 'p', 'e', 'n', 'c', 'o', 'd', 'e', '/',
            'o', 'p', 'e', 'n', 'c', 'o', 'd', 'e', '.', 'j', 's', 'o', 'n'],
{
    assert(home + seq!['/'] + (dot_config() + seq!['/'] + rel_jsonc()) =~= home + seq![
        '/', '.', 'c', 'o', 'n', 'f', 'i', 'g', '/', 'o', 'p', 'e', 'n', 'c', 'o', 'd', 'e', '/',
        'o', 'p', 'e', 'n', 'c', 'o', 'd', 'e', '.', 'j', 's', 'o', 'n', 'c']);
    assert(home + seq!['/'] + (dot_config() + seq!['/'] + rel_json()) =~= home + seq![
        '/', '.', 'c', 'o', 'n', 'f', 'i', 'g', '/', 'o', 'p', 'e', 'n', 'c', 'o', 'd', 'e', '/',
        'o', 'p', 'e', 'n', 'c', 'o', 'd', 'e', '.', 'j', 's', 'o', 'n']);
}

/// The places that the editor looks in: the first five candidates.
pub fn editor_candidate_paths(home: &String, dir: &String) -> (ps: Vec<String>)
    ensures
        texts(ps@) == candidate_list(home@, dir@).take(5),
{
    let mut ps = candidate_paths(home, dir);
    let _ = ps.pop();
    proof {
        assert(texts(ps@) =~= candidate_list(home@, dir@).take(5));
    }
    ps
}

/// The index of the first candidate that exists, if any.
pub open spec fn first_existing(exists: Seq<bool>) -> Option<int>
    decreases exists.len(),
{
    if exists.len() == 0 {
        None
    } else if exists[0] {
        Some(0)
    } else {
        match first_existing(exists.drop_first()) {
            Some(i) => Some(i + 1),
            None => None,
        }
    }
}

/// The configuration file to open: the first candidate that exists
/// (`exists[i]` tells whether `candidates[i]` does), else the fallback file
/// in the configuration directory.
pub fn select_config_path(candidates: &Vec<String>, exists: &Vec<bool>, dir: &String) -> (p: String)
    requires
        exists@.len() == candidates@.len(),
    ensures
        first_existing(exists@) matches Some(i) ==> p@ == candidates@[i]@,
        first_existing(exists@) is None ==> p@ == fallback_config(dir@),
{
    let n = candidates.len();
    let mut i: usize = 0;
    proof {
        assert(exists@.skip(0) =~= exists@);
    }
    while i < n
        invariant
            n == candidates@.len(),
            exists@.len() == n,
            i <= n,
            first_existing(exists@) == match first_existing(exists@.skip(i as int)) {
                Some(j) => Some(j + i),
                None => None::<int>,
            },
        decreases n - i,
    {
        if exists[i] {
            proof {
                assert(exists@.skip(i as int)[0]);
            }
            return candidates[i].clone();
        }
        proof {
            assert(exists@.skip(i as int).drop_first() =~= exists@.skip(i + 1));
        }
        i = i + 1;
    }
    proof {
        assert(exists@.skip(n as int).len() == 0);
    }
    let p = join_path(dir, "opencode/opencode.jsonc");
    proof {
        reveal_strlit("opencode/opencode.jsonc");
        assert("opencode/opencode.jsonc"@ =~= rel_jsonc());
    }
    p
}

/// A configuration file that was found, with its size in bytes.
#[derive(Clone, Debug)]
pub struct CandidateInfo {
    pub path: String,
    pub size: u64,
}

/// The found files, for candidate paths `ps` of which `ex` tells which exist
/// and `sz` gives the sizes that could be read: each path once, at its first
/// place, where it exists, with its size or 0.
pub open spec fn found_files(ps: Seq<Seq<char>>, ex: Seq<bool>, sz: Seq<Option<u64>>) -> Seq<(Seq<char>, u64)>
    decreases ps.len(),
{
    if ps.len() == 0 {
        Seq::empty()
    } else {
        let i = ps.len() - 1;
        let rest = found_files(ps.drop_last(), ex.take(i), sz.take(i));
        if !ps.drop_last().contains(ps[i]) && ex[i] {
            rest.push((ps[i], match sz[i] { Some(s) => s, None => 0 }))
        } else {
            rest
        }
    }
}

/// The found files, as paths and sizes.
pub open spec fn info_views(v: Seq<CandidateInfo>) -> Seq<(Seq<char>, u64)> {
    v.map_values(|c: CandidateInfo| (c.path@, c.size))
}

/// The configuration files found among the candidate paths: `exists[i]`
/// tells whether `paths[i]` exists and `sizes[i]` is its size where it
/// could be read.
pub fn collect_candidates(paths: &Vec<String>, exists: &Vec<bool>, sizes: &Vec<Option<u64>>) -> (found: Vec<CandidateInfo>)
    requires
        exists@.len() == paths@.len(),
        sizes@.len() == paths@.len(),
    ensures
        info_views(found@) == found_files(texts(paths@), exists@, sizes@),
{
    let n = paths.len();
    let mut seen: Vec<String> = Vec::new();
    let mut found: Vec<CandidateInfo> = Vec::new();
    let mut i: usize = 0;
    while i < n
        invariant
            n == paths@.len(),
            exists@.len() == n,
            sizes@.len() == n,
            i <= n,
            texts(seen@) == texts(paths@).take(i as int),
            info_views(found@) == found_files(texts(paths@).take(i as int), exists@.take(i as int), sizes@.take(i as int)),
        decreases n - i,
    {
        let p = &paths[i];
        let mut dup = false;
        let mut j: usize = 0;
        while j < seen.len()
            invariant
                i < n,
                n == paths@.len(),
                j <= seen@.len(),
                texts(seen@) == texts(paths@).take(i as int),
                dup == exists|k: int| 0 <= k < j && #[trigger] seen@[k]@ == p@,
            decreases seen@.len() - j,
        {
            if seen[j] == *p {
                dup = true;
            }
            j = j + 1;
        }
        let ghost t = texts(paths@);
        proof {
            assert(t.take(i + 1).drop_last() =~= t.take(i as int));
            assert(t.take(i + 1)[i as int] == p@);
            assert(exists@.take(i + 1).take(i as int) =~= exists@.take(i as int));
            assert(sizes@.take(i + 1).take(i as int) =~= sizes@.take(i as int));
            assert(dup == t.take(i as int).contains(p@)) by {
                if dup {
                    let k = choose|k: int| 0 <= k < j && #[trigger] seen@[k]@ == p@;
                    assert(texts(seen@)[k] == p@);
                }
                if t.take(i as int).contains(p@) {
                    let k = choose|k: int| 0 <= k < t.take(i as int).len() && t.take(i as int)[k] == p@;
                    assert(texts(seen@)[k] == seen@[k]@);
                }
            }
        }
        let ghost prev = found@;
        if !dup && exists[i] {
            let size = match sizes[i] {
                Some(s) => s,
                None => 0,
            };
            found.push(CandidateInfo { path: p.clone(), size });
            proof {
                assert(info_views(found@) =~= info_views(prev).push((p@, size)));
            }
        }
        seen.push(p.clone());
        proof {
            assert(texts(seen@) =~= t.take(i + 1));
        }
        i = i + 1;
    }
    proof {
        assert(texts(paths@).take(n as int) =~= texts(paths@));
        assert(exists@.take(n as int) =~= exists@);
        assert(sizes@.take(n as int) =~= sizes@);
    }
    found
}

/// The configuration file chosen is a candidate that exists, and no
/// candidate before it exists.
pub proof fn law_first_existing(exists: Seq<bool>)
    ensures
        first_existing(exists) matches Some(i) ==> 0 <= i < exists.len() && exists[i]
            && forall|j: int| 0 <= j < i ==> !#[trigger] exists[j],
        first_existing(exists) is None ==> forall|j: int| 0 <= j < exists.len() ==> !#[trigger] exists[j],
    decreases exists.len(),
{
    if exists.len() > 0 && !exists[0] {
        let t = exists.drop_first();
        law_first_existing(t);
        assert forall|j: int| 1 <= j < exists.len() implies exists[j] == t[j - 1] by {}
    }
}

/// The paths of a list of found files.
pub open spec fn found_paths(f: Seq<(Seq<char>, u64)>) -> Seq<Seq<char>> {
    f.map_values(|x: (Seq<char>, u64)| x.0)
}

/// Every found file is a candidate that exists.
pub proof fn law_found_files_exist(ps: Seq<Seq<char>>, ex: Seq<bool>, sz: Seq<Option<u64>>)
    requires
        ex.len() == ps.len(),
        sz.len() == ps.len(),
    ensures
        forall|k: int| #![trigger found_files(ps, ex, sz)[k]] 0 <= k < found_files(ps, ex, sz).len() ==> exists|i: int|
            0 <= i < ps.len() && ex[i] && found_files(ps, ex, sz)[k].0 == #[trigger] ps[i],
    decreases ps.len(),
{
    if ps.len() > 0 {
        let n = ps.len() - 1;
        let (p0, e0, s0) = (ps.drop_last(), ex.take(n), sz.take(n));
        law_found_files_exist(p0, e0, s0);
        let r = found_files(p0, e0, s0);
        let f = found_files(ps, ex, sz);
        assert forall|k: int| #![trigger f[k]] 0 <= k < f.len() implies exists|i: int|
            0 <= i < ps.len() && ex[i] && f[k].0 == #[trigger] ps[i] by {
            if k < r.len() {
                assert(f[k] == r[k]);
                let i = choose|i: int| 0 <= i < p0.len() && e0[i] && r[k].0 == #[trigger] p0[i];
                assert(ps[i] == p0[i] && ex[i] == e0[i]);
            } else {
                assert(f[k].0 == ps[n]);
            }
        }
    }
}

/// The found files list each path once.
pub proof fn law_found_files_distinct(ps: Seq<Seq<char>>, ex: Seq<bool>, sz: Seq<Option<u64>>)
    requires
        ex.len() == ps.len(),
        sz.len() == ps.len(),
    ensures
        found_paths(found_files(ps, ex, sz)).no_duplicates(),
    decreases ps.len(),
{
    if ps.len() > 0 {
        let n = ps.len() - 1;
        let (p0, e0, s0) = (ps.drop_last(), ex.take(n), sz.take(n));
        law_found_files_distinct(p0, e0, s0);
        law_found_files_exist(p0, e0, s0);
        let r = found_files(p0, e0, s0);
        let f = found_files(ps, ex, sz);
        let names = found_paths(f);
        let rnames = found_paths(r);
        if f.len() > r.len() {
            assert(!p0.contains(ps[n]));
            assert forall|a: int, b: int| 0 <= a < names.len() && 0 <= b < names.len() && a != b implies names[a] != names[b] by {
                if a < r.len() && b < r.len() {
                    assert(names[a] == rnames[a] && names[b] == rnames[b]);
                } else if a < r.len() {
                    assert(f[a] == r[a]);
                    let i = choose|i: int| 0 <= i < p0.len() && e0[i] && r[a].0 == #[trigger] p0[i];
                    assert(names[b] == ps[n]);
                } else if b < r.len() {
                    assert(f[b] == r[b]);
                    let i = choose|i: int| 0 <= i < p0.len() && e0[i] && r[b].0 == #[trigger] p0[i];
                    assert(names[a] == ps[n]);
                }
            }
        } else {
            assert(names =~= rnames);
        }
    }
}

/// Where the same path always gets the same answer to whether it exists,
/// every candidate that exists is among the found files.
pub proof fn law_found_files_complete(ps: Seq<Seq<char>>, ex: Seq<bool>, sz: Seq<Option<u64>>)
    requires
        ex.len() == ps.len(),
        sz.len() == ps.len(),
        forall|i: int, j: int| 0 <= i < ps.len() && 0 <= j < ps.len() && ps[i] == ps[j] ==> ex[i] == ex[j],
    ensures
        forall|i: int| 0 <= i < ps.len() && ex[i] ==> found_paths(found_files(ps, ex, sz)).contains(#[trigger] ps[i]),
    decreases ps.len(),
{
    if ps.len() > 0 {
        let n = ps.len() - 1;
        let (p0, e0, s0) = (ps.drop_last(), ex.take(n), sz.take(n));
        assert forall|i: int, j: int| 0 <= i < p0.len() && 0 <= j < p0.len() && p0[i] == p0[j] implies e0[i] == e0[j] by {
            assert(p0[i] == ps[i] && p0[j] == ps[j]);
        }
        law_found_files_complete(p0, e0, s0);
        let r = found_files(p0, e0, s0);
        let f = found_files(ps, ex, sz);
        assert forall|i: int| 0 <= i < ps.len() && ex[i] implies found_paths(f).contains(#[trigger] ps[i]) by {
            if i < n {
                assert(e0[i] == ex[i] && p0[i] == ps[i]);
                let k = choose|k: int| 0 <= k < found_paths(r).len() && found_paths(r)[k] == p0[i];
                assert(f[k] == r[k]);
                assert(found_paths(f)[k] == ps[i]);
            } else if p0.contains(ps[n]) {
                let j = choose|j: int| 0 <= j < p0.len() && p0[j] == ps[n];
                assert(p0[j] == ps[j]);
                assert(ex[j] == ex[n]);
                assert(e0[j] == ex[j]);
                let k = choose|k: int| 0 <= k < found_paths(r).len() && found_paths(r)[k] == p0[j];
                assert(f[k] == r[k]);
                assert(found_paths(f)[k] == ps[i]);
            } else {
                assert(found_paths(f)[r.len() as int] == ps[n]);
            }
        }
    }
}

} // verus!
