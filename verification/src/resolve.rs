//! What an operand resolves against: installed binaries or filesystem
//! paths, where `MY` and `OUR` look for binaries, and how a bare `MY` path
//! is anchored. Listing directories is I/O and happens outside this
//! library; here is the part that decides what to list and what a listing
//! offers.
use vstd::prelude::*;
use vstd::string::*;

use crate::ast::{strings_view, OwnershipKind, Verb};
use vstd::set_lib::lemma_len_subset;
use crate::text::{
    chars_eq_str, chars_less, chars_lt, lemma_chars_lt_irreflexive, lemma_chars_lt_total,
    lemma_chars_lt_transitive, lines, lines_of, owned, str_chars, strings_of,
};

verus! {

/// A real-world source an operand can resolve against.
#[derive(Clone, Copy, PartialEq, Eq, Hash, Debug, Structural)]
pub enum ResolverKind {
    InstalledBinary,
    FilesystemPath,
}

pub open spec fn resolver_label(k: ResolverKind) -> Seq<char> {
    match k {
        ResolverKind::InstalledBinary => "installed_binary"@,
        ResolverKind::FilesystemPath => "filesystem_path"@,
    }
}

impl ResolverKind {
    /// Every resolver, in declaration order.
    pub fn all() -> (r: Vec<ResolverKind>)
        ensures
            r@ == seq![ResolverKind::InstalledBinary, ResolverKind::FilesystemPath],
    {
        let r = vec![ResolverKind::InstalledBinary, ResolverKind::FilesystemPath];
        assert(r@ =~= seq![ResolverKind::InstalledBinary, ResolverKind::FilesystemPath]);
        r
    }

    /// The name a resolver is catalogued under.
    pub fn label(self) -> (r: &'static str)
        ensures
            r@ == resolver_label(self),
    {
        match self {
            ResolverKind::InstalledBinary => "installed_binary",
            ResolverKind::FilesystemPath => "filesystem_path",
        }
    }

    /// The resolver catalogued under `label`, if any.
    pub fn from_label(label: &str) -> (r: Option<ResolverKind>)
        ensures
            match r {
                Some(k) => resolver_label(k) == label@,
                None => label@ != resolver_label(ResolverKind::InstalledBinary) && label@
                    != resolver_label(ResolverKind::FilesystemPath),
            },
    {
        let chars = str_chars(label);
        if crate::text::chars_eq_str(&chars, ResolverKind::InstalledBinary.label()) {
            Some(ResolverKind::InstalledBinary)
        } else if crate::text::chars_eq_str(&chars, ResolverKind::FilesystemPath.label()) {
            Some(ResolverKind::FilesystemPath)
        } else {
            None
        }
    }
}

/// The directories a domain searches for binaries beyond `$PATH`: the
/// shared system directories for `MY` and `OUR`, none for `THEIR`.
pub fn search_dirs_for(domain: OwnershipKind, system_dirs: Vec<String>) -> (r: Vec<String>)
    ensures
        strings_view(r@) == if domain == OwnershipKind::Their {
            Seq::<Seq<char>>::empty()
        } else {
            strings_view(system_dirs@)
        },
{
    match domain {
        OwnershipKind::My | OwnershipKind::Our => system_dirs,
        OwnershipKind::Their => {
            let r: Vec<String> = Vec::new();
            assert(strings_view(r@) =~= Seq::<Seq<char>>::empty());
            r
        },
    }
}

/// A bare relative `MY` path anchored at home when that default is on;
/// absolute and `~` paths, and other domains, as they are.
pub open spec fn anchor_spec(path: Seq<char>, domain: OwnershipKind, home_relative_default: bool) -> Seq<char> {
    if home_relative_default && domain == OwnershipKind::My && !(path.len() > 0 && path[0] == '/')
        && !(path.len() > 0 && path[0] == '~') {
        "~/"@ + path
    } else {
        path
    }
}

pub fn anchor_my_default(path: &str, domain: OwnershipKind, home_relative_default: bool) -> (r: String)
    ensures
        r@ == anchor_spec(path@, domain, home_relative_default),
{
    let chars = str_chars(path);
    let absolute = chars.len() > 0 && chars[0] == '/';
    let tilde = chars.len() > 0 && chars[0] == '~';
    if home_relative_default && domain == OwnershipKind::My && !absolute && !tilde {
        let mut s = String::from_str("~/");
        s.append(path);
        s
    } else {
        owned(path)
    }
}

/// Whether `s` occurs in `v`.
pub fn contains_string(v: &Vec<String>, s: &String) -> (r: bool)
    ensures
        r == strings_view(v@).contains(s@),
{
    let mut i: usize = 0;
    while i < v.len()
        invariant
            0 <= i <= v@.len(),
            forall|j: int| 0 <= j < i ==> (#[trigger] v@[j])@ != s@,
        decreases v@.len() - i,
    {
        if v[i] == *s {
            assert(strings_view(v@)[i as int] == s@);
            return true;
        }
        i += 1;
    }
    assert forall|j: int| 0 <= j < strings_view(v@).len() implies strings_view(v@)[j] != s@ by {
        assert(strings_view(v@)[j] == v@[j]@);
    }
    false
}

/// `v` followed by each of `extra` that is not already present, in order.
pub open spec fn append_new(v: Seq<Seq<char>>, extra: Seq<Seq<char>>) -> Seq<Seq<char>>
    decreases extra.len(),
{
    if extra.len() == 0 {
        v
    } else {
        let w = append_new(v, extra.drop_last());
        if w.contains(extra.last()) {
            w
        } else {
            w.push(extra.last())
        }
    }
}

/// The directories searched for a binary: `$PATH`'s directories unless
/// the domain is `OUR`, then the domain's own directories not already
/// listed.
pub fn binary_search_dirs(domain: OwnershipKind, path_dirs: Vec<String>, search_dirs: Vec<String>) -> (r: Vec<String>)
    ensures
        strings_view(r@) == append_new(
            if domain == OwnershipKind::Our {
                Seq::<Seq<char>>::empty()
            } else {
                strings_view(path_dirs@)
            },
            strings_view(search_dirs@),
        ),
{
    let mut dirs: Vec<String> = if domain == OwnershipKind::Our {
        Vec::new()
    } else {
        path_dirs
    };
    let ghost base = strings_view(dirs@);
    assert(base =~= if domain == OwnershipKind::Our {
        Seq::<Seq<char>>::empty()
    } else {
        strings_view(path_dirs@)
    });
    let ghost extra = strings_view(search_dirs@);
    let mut i: usize = 0;
    assert(extra.take(0) =~= Seq::<Seq<char>>::empty());
    while i < search_dirs.len()
        invariant
            0 <= i <= search_dirs@.len(),
            extra == strings_view(search_dirs@),
            strings_view(dirs@) == append_new(base, extra.take(i as int)),
        decreases search_dirs@.len() - i,
    {
        proof {
            assert(extra.take(i + 1).drop_last() =~= extra.take(i as int));
            assert(extra.take(i + 1).last() == search_dirs@[i as int]@);
        }
        if !contains_string(&dirs, &search_dirs[i]) {
            let d = search_dirs[i].clone();
            assert(strings_view(dirs@.push(d)) =~= strings_view(dirs@).push(d@));
            dirs.push(d);
        }
        i += 1;
    }
    assert(extra.take(i as int) =~= extra);
    dirs
}

/// Where a partial path splits into the directory part (through the last
/// `/`) and the name prefix after it.
pub open spec fn path_split_at(partial: Seq<char>) -> int
    decreases partial.len(),
{
    if partial.len() == 0 {
        0
    } else if partial.last() == '/' {
        partial.len() as int
    } else {
        path_split_at(partial.drop_last())
    }
}

proof fn lemma_path_split_at(s: Seq<char>)
    ensures
        0 <= path_split_at(s) <= s.len(),
        forall|k: int| path_split_at(s) <= k < s.len() ==> #[trigger] s[k] != '/',
        path_split_at(s) > 0 ==> s[path_split_at(s) - 1] == '/',
    decreases s.len(),
{
    if s.len() > 0 && s.last() != '/' {
        lemma_path_split_at(s.drop_last());
        assert forall|k: int| path_split_at(s) <= k < s.len() implies #[trigger] s[k] != '/' by {
            if k < s.len() - 1 {
                assert(s[k] == s.drop_last()[k]);
            }
        }
        if path_split_at(s) > 0 {
            assert(s[path_split_at(s) - 1] == s.drop_last()[path_split_at(s) - 1]);
        }
    }
}

/// The directory part of a partial path (through its last `/`), and the
/// name prefix after it.
pub fn split_partial_path(partial: &str) -> (r: (String, String))
    ensures
        r.0@ == partial@.take(path_split_at(partial@)),
        r.1@ == partial@.skip(path_split_at(partial@)),
{
    let chars = str_chars(partial);
    let mut i = chars.len();
    assert(chars@.take(i as int) =~= chars@);
    while i > 0 && chars[i - 1] != '/'
        invariant
            0 <= i <= chars@.len(),
            path_split_at(chars@) == path_split_at(chars@.take(i as int)),
        decreases i,
    {
        assert(chars@.take(i as int).drop_last() =~= chars@.take(i - 1));
        i -= 1;
    }
    proof {
        if i > 0 {
            assert(chars@.take(i as int).last() == chars@[i - 1]);
        }
    }
    let dir = crate::text::string_from_chars(&chars, 0, i);
    let name = crate::text::string_from_chars(&chars, i, chars.len());
    assert(dir@ =~= partial@.take(path_split_at(partial@)));
    assert(name@ =~= partial@.skip(path_split_at(partial@)));
    (dir, name)
}

/// The directory a partial path's entries are listed from: its directory
/// part, or `.` when it has none.
pub fn listing_dir(dir_part: &str, home: Option<&str>) -> (r: String)
    ensures
        r@ == if dir_part@.len() == 0 {
            "."@
        } else {
            crate::planner::expand_tilde_spec(
                dir_part@,
                match home {
                    Some(h) => Some(h@),
                    None => None,
                },
            )
        },
{
    if dir_part.is_empty() {
        owned(".")
    } else {
        crate::planner::expand_tilde(dir_part, home)
    }
}

/// The candidate a listed entry offers: the typed directory part, the
/// entry's name, and a `/` after a directory.
pub open spec fn entry_candidate(dir_part: Seq<char>, name: Seq<char>, is_dir: bool) -> Seq<char> {
    if is_dir {
        dir_part + name + "/"@
    } else {
        dir_part + name
    }
}

/// The candidate for one listed entry.
pub fn path_candidate(dir_part: &str, name: &str, is_dir: bool) -> (r: String)
    ensures
        r@ == entry_candidate(dir_part@, name@, is_dir),
{
    let mut s = String::from_str(dir_part);
    s.append(name);
    if is_dir {
        s.append("/");
    }
    s
}

/// The resolvers a verb's operand goes through: `RUN` names an installed
/// binary; every other verb names a filesystem path.
pub open spec fn resolvers_spec(verb: Verb) -> Seq<ResolverKind> {
    if verb == Verb::Run {
        seq![ResolverKind::InstalledBinary]
    } else {
        seq![ResolverKind::FilesystemPath]
    }
}

pub fn resolvers_for(verb: Verb) -> (r: Vec<ResolverKind>)
    ensures
        r@ == resolvers_spec(verb),
{
    let r = if verb == Verb::Run {
        vec![ResolverKind::InstalledBinary]
    } else {
        vec![ResolverKind::FilesystemPath]
    };
    assert(r@ =~= resolvers_spec(verb));
    r
}

/// The shared system binary directories `OUR` searches, in order.
pub fn system_bin_dirs() -> (r: Vec<String>)
    ensures
        strings_view(r@) == crate::process::system_bin_dirs_spec(),
{
    let dirs = crate::process::system_bin_directories();
    let mut r: Vec<String> = Vec::new();
    let mut i: usize = 0;
    while i < dirs.len()
        invariant
            0 <= i <= dirs@.len(),
            dirs@.map_values(|s: &str| s@) == crate::process::system_bin_dirs_spec(),
            strings_view(r@) == crate::process::system_bin_dirs_spec().take(i as int),
        decreases dirs@.len() - i,
    {
        let d = owned(dirs[i]);
        proof {
            assert(dirs@.map_values(|s: &str| s@)[i as int] == dirs@[i as int]@);
            assert(strings_view(r@.push(d)) =~= strings_view(r@).push(d@));
            assert(crate::process::system_bin_dirs_spec().take(i + 1) =~= crate::process::system_bin_dirs_spec().take(i as int).push(d@));
        }
        r.push(d);
        i += 1;
    }
    assert(crate::process::system_bin_dirs_spec().take(i as int) =~= crate::process::system_bin_dirs_spec());
    r
}

// ---------------------------------------------------------------------------
// Directory listings reported by `gls`
// ---------------------------------------------------------------------------
/// The string-valued fields of the JSON object on `line`, each key with
/// its value when that is a string; `None` when `line` is not a JSON
/// object.
pub uninterp spec fn json_object_strings(line: Seq<char>) -> Option<Seq<(Seq<char>, Option<Seq<char>>)>>;

pub open spec fn field_pairs_view(v: Seq<(String, Option<String>)>) -> Seq<(Seq<char>, Option<Seq<char>>)> {
    v.map_values(
        |p: (String, Option<String>)|
            (
                p.0@,
                match p.1 {
                    Some(s) => Some(s@),
                    None => None,
                },
            ),
    )
}

/// Calls `serde_json::from_str::<serde_json::Value>` on `line` and, for an
/// object, lists its fields with `Value::as_str` of each value; the result
/// is named `json_object_strings` of the line. Nothing is claimed of JSON
/// syntax here.
#[verifier::external_body]
fn object_string_fields(line: &str) -> (r: Option<Vec<(String, Option<String>)>>)
    ensures
        match r {
            Some(v) => json_object_strings(line@) == Some(field_pairs_view(v@)),
            None => json_object_strings(line@) is None,
        },
{
    match serde_json::from_str::<serde_json::Value>(line) {
        Ok(serde_json::Value::Object(map)) => Some(
            map.into_iter().map(|(k, v)| (k, v.as_str().map(|s| s.to_string()))).collect(),
        ),
        _ => None,
    }
}

/// The value of the first field named `key`: `None` when there is no such
/// field, `Some(None)` when its value is not a string.
pub open spec fn field_of(fields: Seq<(Seq<char>, Option<Seq<char>>)>, key: Seq<char>) -> Option<Option<Seq<char>>>
    decreases fields.len(),
{
    if fields.len() == 0 {
        None
    } else if fields[0].0 == key {
        Some(fields[0].1)
    } else {
        field_of(fields.drop_first(), key)
    }
}

/// The entry one discovery event reports: its `basename` and whether its
/// `kind` is `directory`, when it has string `basename` and `relative`
/// fields.
pub open spec fn discovery_entry(line: Seq<char>) -> Option<(Seq<char>, bool)> {
    match json_object_strings(line) {
        None => None,
        Some(fields) => match (field_of(fields, "basename"@), field_of(fields, "relative"@)) {
            (Some(Some(basename)), Some(Some(_))) => Some(
                (basename, field_of(fields, "kind"@) == Some(Some("directory"@))),
            ),
            _ => None,
        },
    }
}

/// The entries the discovery events on the lines of `output` report, in
/// order.
pub open spec fn discovery_entries(ls: Seq<Seq<char>>) -> Seq<(Seq<char>, bool)>
    decreases ls.len(),
{
    if ls.len() == 0 {
        Seq::empty()
    } else {
        let rest = discovery_entries(ls.drop_last());
        match discovery_entry(ls.last()) {
            Some(e) => rest.push(e),
            None => rest,
        }
    }
}

pub open spec fn entries_view(v: Seq<(String, bool)>) -> Seq<(Seq<char>, bool)> {
    v.map_values(|p: (String, bool)| (p.0@, p.1))
}

fn find_field(fields: &Vec<(String, Option<String>)>, key: &str) -> (r: Option<Option<String>>)
    ensures
        match r {
            Some(Some(s)) => field_of(field_pairs_view(fields@), key@) == Some(Some(s@)),
            Some(None) => field_of(field_pairs_view(fields@), key@) == Some(None::<Seq<char>>),
            None => field_of(field_pairs_view(fields@), key@) is None,
        },
{
    let ghost fv = field_pairs_view(fields@);
    let mut i: usize = 0;
    assert(fv.skip(0) =~= fv);
    while i < fields.len()
        invariant
            0 <= i <= fields@.len(),
            fv == field_pairs_view(fields@),
            field_of(fv, key@) == field_of(fv.skip(i as int), key@),
        decreases fields@.len() - i,
    {
        proof {
            assert(fv.skip(i as int).drop_first() =~= fv.skip(i + 1));
            assert(fv.skip(i as int)[0] == fv[i as int]);
        }
        let name = str_chars(fields[i].0.as_str());
        if chars_eq_str(&name, key) {
            return match &fields[i].1 {
                Some(v) => Some(Some(v.clone())),
                None => Some(None),
            };
        }
        i += 1;
    }
    assert(fv.skip(i as int).len() == 0);
    None
}

/// The entry one line of `gls` discovery output reports, if any.
pub fn parse_discovery_event(line: &str) -> (r: Option<(String, bool)>)
    ensures
        match r {
            Some((name, is_dir)) => discovery_entry(line@) == Some((name@, is_dir)),
            None => discovery_entry(line@) is None,
        },
{
    let fields = match object_string_fields(line) {
        Some(f) => f,
        None => {
            return None;
        },
    };
    let basename = match find_field(&fields, "basename") {
        Some(Some(b)) => b,
        _ => {
            return None;
        },
    };
    match find_field(&fields, "relative") {
        Some(Some(_)) => {},
        _ => {
            return None;
        },
    }
    let is_dir = match find_field(&fields, "kind") {
        Some(Some(k)) => {
            let kc = str_chars(k.as_str());
            chars_eq_str(&kc, "directory")
        },
        _ => false,
    };
    Some((basename, is_dir))
}

/// The entries the discovery events in `gls` output report, in order.
pub fn parse_discovery_events(output: &str) -> (r: Vec<(String, bool)>)
    ensures
        entries_view(r@) == discovery_entries(lines_of(output@)),
{
    let ls = lines(output);
    let ghost lv = strings_of(ls@);
    let mut r: Vec<(String, bool)> = Vec::new();
    let mut i: usize = 0;
    assert(entries_view(r@) =~= discovery_entries(lv.take(0)));
    while i < ls.len()
        invariant
            0 <= i <= ls@.len(),
            lv == strings_of(ls@),
            entries_view(r@) == discovery_entries(lv.take(i as int)),
        decreases ls@.len() - i,
    {
        proof {
            assert(lv.take(i + 1).drop_last() =~= lv.take(i as int));
            assert(lv.take(i + 1).last() == ls@[i as int]@);
        }
        match parse_discovery_event(ls[i].as_str()) {
            Some(e) => {
                assert(entries_view(r@.push(e)) =~= entries_view(r@).push((e.0@, e.1)));
                r.push(e);
            },
            None => {},
        }
        i += 1;
    }
    assert(lv.take(i as int) =~= lv);
    r
}

// ---------------------------------------------------------------------------
// The first candidates in order
// ---------------------------------------------------------------------------
/// Strictly increasing in string order (so without repeats).
pub open spec fn strictly_sorted(s: Seq<Seq<char>>) -> bool {
    forall|a: int, b: int| 0 <= a < b < s.len() ==> chars_lt(#[trigger] s[a], #[trigger] s[b])
}

/// `r` is the first `cap` of the distinct strings of `items` in string
/// order: sorted without repeats, drawn from `items`, and missing only
/// strings after all of its own once it is full.
pub open spec fn first_in_order(r: Seq<Seq<char>>, items: Seq<Seq<char>>, cap: nat) -> bool {
    &&& strictly_sorted(r)
    &&& r.len() <= cap
    &&& forall|j: int| 0 <= j < r.len() ==> items.contains(#[trigger] r[j])
    &&& forall|j: int|
        0 <= j < items.len() ==> r.contains(#[trigger] items[j]) || (r.len() == cap && (cap == 0
            || chars_lt(r.last(), items[j])))
}

proof fn lemma_insert_sorted(r: Seq<Seq<char>>, k: int, x: Seq<char>)
    requires
        strictly_sorted(r),
        0 <= k <= r.len(),
        forall|a: int| 0 <= a < k ==> chars_lt(#[trigger] r[a], x),
        k < r.len() ==> chars_lt(x, r[k]),
    ensures
        strictly_sorted(r.insert(k, x)),
{
    let n = r.insert(k, x);
    assert forall|a: int, b: int| 0 <= a < b < n.len() implies chars_lt(#[trigger] n[a], #[trigger] n[b]) by {
        if b < k {
            assert(n[a] == r[a] && n[b] == r[b]);
        } else if b == k {
            assert(n[a] == r[a] && n[b] == x);
        } else if a < k {
            assert(n[a] == r[a] && n[b] == r[b - 1]);
            assert(chars_lt(r[a], x));
            assert(chars_lt(x, r[k]));
            lemma_chars_lt_transitive(r[a], x, r[k]);
            if b - 1 > k {
                lemma_chars_lt_transitive(r[a], r[k], r[b - 1]);
            }
        } else if a == k {
            assert(n[a] == x && n[b] == r[b - 1]);
            if b - 1 > k {
                lemma_chars_lt_transitive(x, r[k], r[b - 1]);
            }
        } else {
            assert(n[a] == r[a - 1] && n[b] == r[b - 1]);
        }
    }
}

/// Adds `x` to `r`, keeping `r` the first `cap` distinct strings in order.
fn insert_in_order(r: &mut Vec<String>, x: String, cap: usize, Ghost(seen): Ghost<Seq<Seq<char>>>)
    requires
        cap > 0,
        first_in_order(strings_of(old(r)@), seen, cap as nat),
    ensures
        first_in_order(strings_of(final(r)@), seen.push(x@), cap as nat),
{
    let ghost rv = strings_of(r@);
    let ghost items = seen.push(x@);
    let xc = str_chars(x.as_str());
    let mut k: usize = 0;
    while k < r.len()
        invariant
            rv == strings_of(r@),
            xc@ == x@,
            0 <= k <= r@.len(),
            forall|a: int| 0 <= a < k ==> chars_lt(#[trigger] rv[a], x@),
        ensures
            0 <= k <= r@.len(),
            forall|a: int| 0 <= a < k ==> chars_lt(#[trigger] rv[a], x@),
            k < r@.len() ==> !chars_lt(rv[k as int], x@),
        decreases r@.len() - k,
    {
        let rc = str_chars(r[k].as_str());
        assert(rc@ == rv[k as int]);
        if !chars_less(&rc, &xc) {
            break;
        }
        k += 1;
    }
    proof {
        lemma_chars_lt_irreflexive(x@);
    }
    if k < r.len() {
        let rc = str_chars(r[k].as_str());
        if crate::text::chars_eq(&rc, &xc) {
            assert(rv[k as int] == x@);
            assert forall|j: int| 0 <= j < items.len() implies rv.contains(#[trigger] items[j]) || (
            rv.len() == cap && chars_lt(rv.last(), items[j])) by {
                if j == seen.len() {
                    assert(rv[k as int] == items[j]);
                } else {
                    assert(items[j] == seen[j]);
                }
            }
            assert forall|j: int| 0 <= j < rv.len() implies items.contains(#[trigger] rv[j]) by {
                let w = choose|w: int| 0 <= w < seen.len() && seen[w] == rv[j];
                assert(items[w] == seen[w]);
            }
            return;
        }
        proof {
            lemma_chars_lt_total(rv[k as int], x@);
        }
    }
    if k >= cap {
        proof {
            assert(rv.len() == cap);
            assert(chars_lt(rv.last(), x@));
            assert forall|j: int| 0 <= j < items.len() implies rv.contains(#[trigger] items[j]) || (
            rv.len() == cap && chars_lt(rv.last(), items[j])) by {
                if j < seen.len() {
                    assert(items[j] == seen[j]);
                }
            }
            assert forall|j: int| 0 <= j < rv.len() implies items.contains(#[trigger] rv[j]) by {
                let w = choose|w: int| 0 <= w < seen.len() && seen[w] == rv[j];
                assert(items[w] == seen[w]);
            }
        }
        return;
    }
    let ghost xv = x@;
    proof {
        lemma_insert_sorted(rv, k as int, x@);
    }
    r.insert(k, x);
    let ghost inserted = rv.insert(k as int, xv);
    assert(strings_of(r@) =~= inserted);
    if r.len() > cap {
        r.pop();
        assert(strings_of(r@) =~= inserted.subrange(0, cap as int));
    }
    proof {
        let nv = strings_of(r@);
        assert(nv =~= inserted.subrange(0, nv.len() as int));
        assert(nv.len() <= cap);
        assert forall|a: int, b: int| 0 <= a < b < nv.len() implies chars_lt(#[trigger] nv[a], #[trigger] nv[b]) by {
            assert(nv[a] == inserted[a] && nv[b] == inserted[b]);
        }
        assert(nv[k as int] == xv);
        assert forall|j: int| 0 <= j < nv.len() implies items.contains(#[trigger] nv[j]) by {
            if j < k {
                assert(nv[j] == rv[j]);
                let w = choose|w: int| 0 <= w < seen.len() && seen[w] == rv[j];
                assert(items[w] == seen[w]);
            } else if j == k {
                assert(items[seen.len() as int] == xv);
            } else {
                assert(nv[j] == rv[j - 1]);
                let w = choose|w: int| 0 <= w < seen.len() && seen[w] == rv[j - 1];
                assert(items[w] == seen[w]);
            }
        }
        assert forall|j: int| 0 <= j < items.len() implies nv.contains(#[trigger] items[j]) || (
        nv.len() == cap && chars_lt(nv.last(), items[j])) by {
            if j == seen.len() {
                assert(items[j] == xv);
                assert(nv[k as int] == xv);
            } else {
                let y = items[j];
                assert(y == seen[j]);
                if rv.contains(y) {
                    let a = choose|a: int| 0 <= a < rv.len() && rv[a] == y;
                    if a < k {
                        assert(nv[a] == y);
                    } else if a + 1 < nv.len() {
                        assert(nv[a + 1] == inserted[a + 1]);
                        assert(nv[a + 1] == y);
                    } else {
                        assert(nv.len() == cap);
                        assert(inserted[a + 1] == y);
                        assert(chars_lt(inserted[nv.len() - 1], inserted[a + 1]));
                    }
                } else {
                    assert(rv.len() == cap && chars_lt(rv.last(), y));
                    assert(inserted.len() == cap + 1);
                    assert(inserted[cap as int] == rv.last());
                    assert(nv.len() == cap);
                    assert(chars_lt(inserted[cap - 1], inserted[cap as int]));
                    lemma_chars_lt_transitive(nv.last(), rv.last(), y);
                }
            }
        }
    }
}

proof fn lemma_sorted_no_duplicates(r: Seq<Seq<char>>)
    requires
        strictly_sorted(r),
    ensures
        r.no_duplicates(),
{
    assert forall|i: int, j: int| 0 <= i < r.len() && 0 <= j < r.len() && i != j implies r[i] != r[j] by {
        lemma_chars_lt_irreflexive(r[i]);
        if i < j {
            assert(chars_lt(r[i], r[j]));
        } else {
            assert(chars_lt(r[j], r[i]));
        }
    }
}

/// Every member of a strictly sorted sequence is at most its last.
proof fn lemma_at_most_last(r: Seq<Seq<char>>, a: int)
    requires
        strictly_sorted(r),
        0 <= a < r.len(),
    ensures
        r[a] == r.last() || chars_lt(r[a], r.last()),
{
    if a < r.len() - 1 {
        assert(chars_lt(r[a], r[r.len() - 1]));
    }
}

/// Two selections of the first `cap` strings of `items` hold the same
/// strings.
proof fn lemma_first_in_order_members(r1: Seq<Seq<char>>, r2: Seq<Seq<char>>, items: Seq<Seq<char>>, cap: nat, x: Seq<char>)
    requires
        first_in_order(r1, items, cap),
        first_in_order(r2, items, cap),
        r1.contains(x),
    ensures
        r2.contains(x),
{
    if !r2.contains(x) {
        let a = choose|a: int| 0 <= a < r1.len() && r1[a] == x;
        assert(items.contains(r1[a]));
        let ix = choose|ix: int| 0 <= ix < items.len() && items[ix] == x;
        assert(r2.contains(items[ix]) || (r2.len() == cap && (cap == 0 || chars_lt(r2.last(), items[ix]))));
        assert(r2.len() == cap && cap > 0 && chars_lt(r2.last(), x));
        assert forall|y: Seq<char>| r2.to_set().insert(x).contains(y) implies r1.to_set().contains(y) by {
            if y != x {
                let b = choose|b: int| 0 <= b < r2.len() && r2[b] == y;
                assert(items.contains(r2[b]));
                let iy = choose|iy: int| 0 <= iy < items.len() && items[iy] == y;
                assert(r1.contains(items[iy]) || (r1.len() == cap && (cap == 0 || chars_lt(r1.last(), items[iy]))));
                if !r1.contains(y) {
                    lemma_at_most_last(r1, a);
                    lemma_at_most_last(r2, b);
                    // r1.last() < y <= r2.last() < x <= r1.last()
                    let l1 = r1.last();
                    let l2 = r2.last();
                    assert(chars_lt(l1, y));
                    if y != l2 {
                        lemma_chars_lt_transitive(l1, y, l2);
                    }
                    assert(chars_lt(l1, l2));
                    lemma_chars_lt_transitive(l1, l2, x);
                    if x != l1 {
                        lemma_chars_lt_transitive(l1, x, l1);
                    }
                    lemma_chars_lt_irreflexive(l1);
                }
            }
        }
        lemma_sorted_no_duplicates(r1);
        lemma_sorted_no_duplicates(r2);
        r1.unique_seq_to_set();
        r2.unique_seq_to_set();
        assert(!r2.to_set().contains(x));
        lemma_len_subset(r2.to_set().insert(x), r1.to_set());
    }
}

proof fn lemma_sorted_same_members_equal(r1: Seq<Seq<char>>, r2: Seq<Seq<char>>)
    requires
        strictly_sorted(r1),
        strictly_sorted(r2),
        forall|x: Seq<char>| r1.contains(x) <==> r2.contains(x),
    ensures
        r1 == r2,
    decreases r1.len(),
{
    if r1.len() == 0 {
        if r2.len() > 0 {
            assert(r2.contains(r2[0]));
        }
        assert(r1 =~= r2);
    } else {
        assert(r1.contains(r1[0]));
        assert(r2.len() > 0);
        assert(r2.contains(r2[0]));
        let j = choose|j: int| 0 <= j < r2.len() && r2[j] == r1[0];
        let i = choose|i: int| 0 <= i < r1.len() && r1[i] == r2[0];
        if j > 0 {
            assert(chars_lt(r2[0], r2[j]));
            lemma_chars_lt_irreflexive(r1[0]);
            if i > 0 {
                assert(chars_lt(r1[0], r1[i]));
                lemma_chars_lt_total(r1[0], r2[0]);
            }
        }
        assert(r1[0] == r2[0]);
        let t1 = r1.drop_first();
        let t2 = r2.drop_first();
        lemma_sorted_no_duplicates(r1);
        lemma_sorted_no_duplicates(r2);
        assert forall|x: Seq<char>| t1.contains(x) <==> t2.contains(x) by {
            if t1.contains(x) {
                let a = choose|a: int| 0 <= a < t1.len() && t1[a] == x;
                assert(r1[a + 1] == x);
                assert(r2.contains(x));
                let b = choose|b: int| 0 <= b < r2.len() && r2[b] == x;
                assert(b != 0);
                assert(t2[b - 1] == x);
            }
            if t2.contains(x) {
                let b = choose|b: int| 0 <= b < t2.len() && t2[b] == x;
                assert(r2[b + 1] == x);
                assert(r1.contains(x));
                let a = choose|a: int| 0 <= a < r1.len() && r1[a] == x;
                assert(a != 0);
                assert(t1[a - 1] == x);
            }
        }
        assert(strictly_sorted(t1)) by {
            assert forall|a: int, b: int| 0 <= a < b < t1.len() implies chars_lt(#[trigger] t1[a], #[trigger] t1[b]) by {
                assert(t1[a] == r1[a + 1] && t1[b] == r1[b + 1]);
            }
        }
        assert(strictly_sorted(t2)) by {
            assert forall|a: int, b: int| 0 <= a < b < t2.len() implies chars_lt(#[trigger] t2[a], #[trigger] t2[b]) by {
                assert(t2[a] == r2[a + 1] && t2[b] == r2[b + 1]);
            }
        }
        lemma_sorted_same_members_equal(t1, t2);
        assert(r1 =~= seq![r1[0]] + t1);
        assert(r2 =~= seq![r2[0]] + t2);
    }
}

/// What `first_in_order` describes is one sequence only: the distinct
/// strings of `items` sorted ascending and cut to the first `cap`. So the
/// binaries a listing offers are exactly its matches sorted, without
/// repeats, and cut.
pub proof fn law_first_in_order_is_unique(r1: Seq<Seq<char>>, r2: Seq<Seq<char>>, items: Seq<Seq<char>>, cap: nat)
    requires
        first_in_order(r1, items, cap),
        first_in_order(r2, items, cap),
    ensures
        r1 == r2,
{
    assert forall|x: Seq<char>| r1.contains(x) <==> r2.contains(x) by {
        if r1.contains(x) {
            lemma_first_in_order_members(r1, r2, items, cap, x);
        }
        if r2.contains(x) {
            lemma_first_in_order_members(r2, r1, items, cap, x);
        }
    }
    lemma_sorted_same_members_equal(r1, r2);
}

/// The first `cap` distinct strings of `items` in string order.
pub fn first_in_string_order(items: Vec<String>, cap: usize) -> (r: Vec<String>)
    ensures
        first_in_order(strings_of(r@), strings_of(items@), cap as nat),
{
    let ghost iv = strings_of(items@);
    let mut r: Vec<String> = Vec::new();
    if cap == 0 {
        assert(strings_of(r@) =~= Seq::<Seq<char>>::empty());
        return r;
    }
    let mut i: usize = 0;
    assert(strings_of(r@) =~= Seq::<Seq<char>>::empty());
    assert(iv.take(0) =~= Seq::<Seq<char>>::empty());
    while i < items.len()
        invariant
            0 <= i <= items@.len(),
            cap > 0,
            iv == strings_of(items@),
            first_in_order(strings_of(r@), iv.take(i as int), cap as nat),
        decreases items@.len() - i,
    {
        let x = items[i].clone();
        proof {
            assert(iv.take(i + 1) =~= iv.take(i as int).push(x@));
        }
        insert_in_order(&mut r, x, cap, Ghost(iv.take(i as int)));
        i += 1;
    }
    assert(iv.take(i as int) =~= iv);
    r
}

/// How many candidates a listing offers at most.
pub open spec fn listing_cap() -> nat {
    50
}

pub open spec fn has_prefix(p: Seq<char>) -> spec_fn(Seq<char>) -> bool {
    |s: Seq<char>| p.is_prefix_of(s)
}

pub open spec fn entry_has_prefix(p: Seq<char>) -> spec_fn((Seq<char>, bool)) -> bool {
    |e: (Seq<char>, bool)| p.is_prefix_of(e.0)
}

/// The candidates the entries of a listing offer for `dir_part` and
/// `name_prefix`: those whose name starts with the prefix, as typed paths.
pub open spec fn entry_candidates(
    dir_part: Seq<char>,
    name_prefix: Seq<char>,
    entries: Seq<(Seq<char>, bool)>,
) -> Seq<Seq<char>> {
    entries.filter(entry_has_prefix(name_prefix)).map_values(
        |e: (Seq<char>, bool)| entry_candidate(dir_part, e.0, e.1),
    )
}

fn starts_with_chars(s: &Vec<char>, p: &Vec<char>) -> (r: bool)
    ensures
        r == p@.is_prefix_of(s@),
{
    if p.len() > s.len() {
        return false;
    }
    let mut i: usize = 0;
    while i < p.len()
        invariant
            p@.len() <= s@.len(),
            0 <= i <= p@.len(),
            forall|j: int| 0 <= j < i ==> p@[j] == s@[j],
        decreases p@.len() - i,
    {
        if p[i] != s[i] {
            return false;
        }
        i += 1;
    }
    assert(p@ =~= s@.subrange(0, p@.len() as int));
    true
}

/// String order with equal strings allowed: `a` is `b` or comes before it.
pub open spec fn chars_leq() -> spec_fn(Seq<char>, Seq<char>) -> bool {
    |a: Seq<char>, b: Seq<char>| a == b || chars_lt(a, b)
}

/// `items` sorted ascending, repeats kept, cut to the first `cap`.
pub open spec fn sorted_cut(items: Seq<Seq<char>>, cap: nat) -> Seq<Seq<char>> {
    let sorted = items.sort_by(chars_leq());
    if sorted.len() <= cap {
        sorted
    } else {
        sorted.take(cap as int)
    }
}

proof fn lemma_chars_leq_total_ordering()
    ensures
        vstd::relations::total_ordering(chars_leq()),
{
    let leq = chars_leq();
    assert forall|x: Seq<char>| #[trigger] leq(x, x) by {}
    assert forall|x: Seq<char>, y: Seq<char>| #[trigger] leq(x, y) && #[trigger] leq(y, x) implies x == y by {
        lemma_chars_lt_total(x, y);
    }
    assert forall|x: Seq<char>, y: Seq<char>, z: Seq<char>| #[trigger] leq(x, y) && #[trigger] leq(y, z) implies leq(
        x,
        z,
    ) by {
        if x != y && y != z {
            lemma_chars_lt_transitive(x, y, z);
        }
    }
    assert forall|x: Seq<char>, y: Seq<char>| #[trigger] leq(x, y) || #[trigger] leq(y, x) by {
        lemma_chars_lt_total(x, y);
    }
}

/// `items` sorted ascending in string order; repeats are kept.
fn sorted_strings(items: Vec<String>) -> (r: Vec<String>)
    ensures
        strings_of(r@) == strings_of(items@).sort_by(chars_leq()),
{
    let ghost iv = strings_of(items@);
    let ghost leq = chars_leq();
    proof {
        lemma_chars_leq_total_ordering();
    }
    let mut r: Vec<String> = Vec::new();
    let mut i: usize = 0;
    assert(strings_of(r@) =~= Seq::<Seq<char>>::empty());
    assert(iv.take(0) =~= Seq::<Seq<char>>::empty());
    while i < items.len()
        invariant
            0 <= i <= items@.len(),
            iv == strings_of(items@),
            leq == chars_leq(),
            vstd::relations::total_ordering(leq),
            vstd::relations::sorted_by(strings_of(r@), leq),
            strings_of(r@).to_multiset() == iv.take(i as int).to_multiset(),
        decreases items@.len() - i,
    {
        let x = items[i].clone();
        let xc = str_chars(x.as_str());
        let ghost rv = strings_of(r@);
        let mut k: usize = 0;
        while k < r.len()
            invariant
                rv == strings_of(r@),
                xc@ == x@,
                0 <= k <= r@.len(),
                forall|a: int| 0 <= a < k ==> leq(#[trigger] rv[a], x@),
                leq == chars_leq(),
            ensures
                0 <= k <= r@.len(),
                forall|a: int| 0 <= a < k ==> leq(#[trigger] rv[a], x@),
                k < r@.len() ==> chars_lt(x@, rv[k as int]),
            decreases r@.len() - k,
        {
            let rc = str_chars(r[k].as_str());
            assert(rc@ == rv[k as int]);
            if chars_less(&xc, &rc) {
                break;
            }
            proof {
                lemma_chars_lt_total(x@, rv[k as int]);
            }
            k += 1;
        }
        proof {
            assert(x@ == iv[i as int]);
        }
        r.insert(k, x);
        proof {
            let nv = strings_of(r@);
            assert(nv =~= rv.insert(k as int, iv[i as int]));
            assert(nv =~= rv.take(k as int).push(iv[i as int]) + rv.skip(k as int));
            assert(rv =~= rv.take(k as int) + rv.skip(k as int));
            vstd::seq_lib::lemma_multiset_commutative(rv.take(k as int).push(iv[i as int]), rv.skip(k as int));
            vstd::seq_lib::lemma_multiset_commutative(rv.take(k as int), rv.skip(k as int));
            vstd::seq_lib::to_multiset_build(rv.take(k as int), iv[i as int]);
            assert(iv.take(i + 1) =~= iv.take(i as int).push(iv[i as int]));
            vstd::seq_lib::to_multiset_build(iv.take(i as int), iv[i as int]);
            assert(nv.to_multiset() =~= iv.take(i + 1).to_multiset());
            assert forall|a: int, b: int| 0 <= a < b < nv.len() implies #[trigger] leq(nv[a], nv[b]) by {
                let xv = iv[i as int];
                if b < k {
                    assert(nv[a] == rv[a] && nv[b] == rv[b]);
                } else if b == k {
                    assert(nv[a] == rv[a] && nv[b] == xv);
                } else if a < k {
                    assert(nv[a] == rv[a] && nv[b] == rv[b - 1]);
                    assert(leq(rv[a], rv[b - 1]));
                } else if a == k {
                    assert(nv[a] == xv && nv[b] == rv[b - 1]);
                    assert(chars_lt(xv, rv[k as int]));
                    if b - 1 > k {
                        assert(leq(rv[k as int], rv[b - 1]));
                    }
                    assert(leq(xv, rv[k as int]));
                } else {
                    assert(nv[a] == rv[a - 1] && nv[b] == rv[b - 1]);
                }
            }
        }
        i += 1;
    }
    proof {
        assert(iv.take(i as int) =~= iv);
        iv.lemma_sort_by_ensures(leq);
        vstd::seq_lib::lemma_sorted_unique(strings_of(r@), iv.sort_by(leq), leq);
    }
    r
}

/// The first fifty installed binaries, in order and without repeats,
/// whose names start with `prefix`.
pub fn binary_matches(names: Vec<String>, prefix: &str) -> (r: Vec<String>)
    ensures
        first_in_order(strings_of(r@), strings_of(names@).filter(has_prefix(prefix@)), listing_cap()),
{
    let ghost nv = strings_of(names@);
    let p = str_chars(prefix);
    let mut kept: Vec<String> = Vec::new();
    let mut i: usize = 0;
    assert(strings_of(kept@) =~= nv.take(0).filter(has_prefix(prefix@))) by {
        reveal(Seq::filter);
    }
    while i < names.len()
        invariant
            0 <= i <= names@.len(),
            nv == strings_of(names@),
            p@ == prefix@,
            strings_of(kept@) == nv.take(i as int).filter(has_prefix(prefix@)),
        decreases names@.len() - i,
    {
        let name = str_chars(names[i].as_str());
        proof {
            assert(nv.take(i + 1) =~= nv.take(i as int).push(nv[i as int]));
            nv.take(i as int).lemma_filter_push(nv[i as int], has_prefix(prefix@));
        }
        if starts_with_chars(&name, &p) {
            let n = names[i].clone();
            assert(strings_of(kept@.push(n)) =~= strings_of(kept@).push(n@));
            kept.push(n);
        }
        i += 1;
    }
    assert(nv.take(i as int) =~= nv);
    first_in_string_order(kept, 50)
}

/// The first fifty path candidates, in string order, that a directory
/// listing offers for a partial path split into `dir_part` and
/// `name_prefix`; a candidate listed twice is offered twice.
pub fn path_matches(dir_part: &str, name_prefix: &str, entries: Vec<(String, bool)>) -> (r: Vec<String>)
    ensures
        strings_of(r@) == sorted_cut(
            entry_candidates(dir_part@, name_prefix@, entries_view(entries@)),
            listing_cap(),
        ),
{
    let ghost ev = entries_view(entries@);
    let ghost f = |e: (Seq<char>, bool)| entry_candidate(dir_part@, e.0, e.1);
    let p = str_chars(name_prefix);
    let mut kept: Vec<String> = Vec::new();
    let mut i: usize = 0;
    assert(strings_of(kept@) =~= ev.take(0).filter(entry_has_prefix(name_prefix@)).map_values(f)) by {
        reveal(Seq::filter);
    }
    while i < entries.len()
        invariant
            0 <= i <= entries@.len(),
            ev == entries_view(entries@),
            f == (|e: (Seq<char>, bool)| entry_candidate(dir_part@, e.0, e.1)),
            p@ == name_prefix@,
            strings_of(kept@) == ev.take(i as int).filter(entry_has_prefix(name_prefix@)).map_values(f),
        decreases entries@.len() - i,
    {
        let name = str_chars(entries[i].0.as_str());
        let ghost e = ev[i as int];
        proof {
            assert(ev.take(i + 1) =~= ev.take(i as int).push(e));
            ev.take(i as int).lemma_filter_push(e, entry_has_prefix(name_prefix@));
            assert(e == (entries@[i as int].0@, entries@[i as int].1));
        }
        if starts_with_chars(&name, &p) {
            let c = path_candidate(dir_part, entries[i].0.as_str(), entries[i].1);
            proof {
                let before = ev.take(i as int).filter(entry_has_prefix(name_prefix@));
                assert(before.push(e).map_values(f) =~= before.map_values(f).push(f(e)));
                assert(strings_of(kept@.push(c)) =~= strings_of(kept@).push(c@));
            }
            kept.push(c);
        }
        i += 1;
    }
    assert(ev.take(i as int) =~= ev);
    let mut sorted = sorted_strings(kept);
    sorted.truncate(50);
    proof {
        let all = strings_of(kept@).sort_by(chars_leq());
        if all.len() > 50 {
            assert(strings_of(sorted@) =~= all.take(50));
        }
    }
    sorted
}

/// Every path candidate a listing offers extends the partial path typed:
/// it starts with the directory part followed by the name prefix.
pub proof fn law_path_candidates_extend_the_partial(
    dir_part: Seq<char>,
    name_prefix: Seq<char>,
    entries: Seq<(Seq<char>, bool)>,
)
    ensures
        forall|k: int|
            0 <= k < entry_candidates(dir_part, name_prefix, entries).len() ==> (dir_part + name_prefix).is_prefix_of(
                #[trigger] entry_candidates(dir_part, name_prefix, entries)[k],
            ),
{
    let kept = entries.filter(entry_has_prefix(name_prefix));
    let c = entry_candidates(dir_part, name_prefix, entries);
    assert forall|k: int| 0 <= k < c.len() implies (dir_part + name_prefix).is_prefix_of(#[trigger] c[k]) by {
        entries.filter_lemma(entry_has_prefix(name_prefix));
        let e = kept[k];
        assert(name_prefix.is_prefix_of(e.0));
        let p = dir_part + name_prefix;
        let x = c[k];
        assert(x == entry_candidate(dir_part, e.0, e.1));
        assert forall|a: int| 0 <= a < p.len() implies x[a] == p[a] by {
            if a >= dir_part.len() {
                assert(e.0[a - dir_part.len()] == name_prefix[a - dir_part.len()]);
            }
        }
        assert(x.subrange(0, p.len() as int) =~= p);
    }
}

} // verus!
