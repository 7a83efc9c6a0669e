//! npm / uv package arguments: finding the package argument of an `npx`,
//! `uvx` or `uv run` command line and pinning or floating its version.

use vstd::prelude::*;
use crate::text::{
    all_digits, ascii_lower, chars_eq, chars_of, concat, digits_value, find_char, first_index,
    is_ascii_digit, is_digit, last_index, lower_ascii, rfind_char, slice_chars, starts_with,
    string_of, strip_start_char, trim, trim_start_char, trim_ws,
};

verus! {

/// The view of each string in a sequence.
pub open spec fn strings_view(v: Seq<String>) -> Seq<Seq<char>> {
    v.map_values(|s: String| s@)
}

/// Whether `s` begins with `-`.
pub open spec fn starts_dash(s: Seq<char>) -> bool {
    s.len() > 0 && s[0] == '-'
}

fn str_starts_dash(s: &str) -> (b: bool)
    ensures
        b == starts_dash(s@),
{
    let v = chars_of(s);
    v.len() > 0 && v[0] == '-'
}

/// Whether the string slice `s` holds exactly the characters `lit`.
pub fn str_is(s: &str, lit: &[char]) -> (b: bool)
    ensures
        b == (s@ == lit@),
{
    let v = chars_of(s);
    chars_eq(&v, lit)
}

pub open spec fn lit_npx() -> Seq<char> {
    seq!['n', 'p', 'x']
}

pub open spec fn lit_uvx() -> Seq<char> {
    seq!['u', 'v', 'x']
}

pub open spec fn lit_uv() -> Seq<char> {
    seq!['u', 'v']
}

pub open spec fn lit_run() -> Seq<char> {
    seq!['r', 'u', 'n']
}

/// `-y` or `--yes`.
pub open spec fn is_yes_flag(s: Seq<char>) -> bool {
    s == seq!['-', 'y'] || s == seq!['-', '-', 'y', 'e', 's']
}

/// `-m` or `--module`.
pub open spec fn is_module_flag(s: Seq<char>) -> bool {
    s == seq!['-', 'm'] || s == seq!['-', '-', 'm', 'o', 'd', 'u', 'l', 'e']
}

/// `args[i]` is a `-y` / `--yes` flag followed by a non-flag argument.
pub open spec fn yes_hit(args: Seq<Seq<char>>, i: int) -> bool {
    0 <= i && i + 1 < args.len() && is_yes_flag(args[i]) && !starts_dash(args[i + 1])
}

/// First position at or after which nothing holds and before which `p` fails.
pub open spec fn first_where(n: int, p: spec_fn(int) -> bool) -> Option<int> {
    if exists|i: int| 0 <= i < n && #[trigger] p(i) {
        Some(choose|i: int| 0 <= i < n && #[trigger] p(i) && forall|j: int| 0 <= j < i ==> !#[trigger] p(j))
    } else {
        None
    }
}

/// Index of the npm package argument of an `npx` command line: the argument
/// after the first `-y`/`--yes` that is followed by a non-flag, else the
/// first argument that is not a flag.
pub open spec fn npx_package_index(args: Seq<Seq<char>>) -> Option<int> {
    match first_where(args.len() as int, |i: int| yes_hit(args, i)) {
        Some(i) => Some(i + 1),
        None => first_where(args.len() as int, |i: int| !starts_dash(args[i])),
    }
}

/// Scan of a `uv run` command line from `i`: flags are skipped, and `-m` /
/// `--module` also skip their value; the first non-flag is the package.
pub open spec fn uv_run_scan(args: Seq<Seq<char>>, i: int) -> Option<int>
    decreases args.len() + 2 - i,
{
    if i < 0 || i >= args.len() {
        None
    } else if starts_dash(args[i]) {
        if is_module_flag(args[i]) {
            uv_run_scan(args, i + 2)
        } else {
            uv_run_scan(args, i + 1)
        }
    } else {
        Some(i)
    }
}

/// Index of the package argument for `uvx` or `uv run` invocations.
pub open spec fn uv_package_index(command: Seq<char>, args: Seq<Seq<char>>) -> Option<int> {
    if command == lit_uvx() {
        first_where(args.len() as int, |i: int| !starts_dash(args[i]))
    } else if command == lit_uv() && args.len() > 0 && args[0] == lit_run() {
        uv_run_scan(args, 1)
    } else {
        None
    }
}

proof fn lemma_first_where_found(n: int, p: spec_fn(int) -> bool, i: int)
    requires
        0 <= i < n,
        p(i),
        forall|j: int| 0 <= j < i ==> !#[trigger] p(j),
    ensures
        first_where(n, p) == Some(i),
{
    let w = choose|w: int| 0 <= w < n && #[trigger] p(w) && forall|j: int| 0 <= j < w ==> !#[trigger] p(j);
    assert(0 <= i < n && p(i) && forall|j: int| 0 <= j < i ==> !#[trigger] p(j));
    if w < i {
        assert(!p(w));
    } else if w > i {
        assert(!p(i));
    }
}

proof fn lemma_first_where_none(n: int, p: spec_fn(int) -> bool)
    requires
        forall|j: int| 0 <= j < n ==> !#[trigger] p(j),
    ensures
        first_where(n, p) is None,
{
}

fn is_yes_arg(s: &str) -> (b: bool)
    ensures
        b == is_yes_flag(s@),
{
    let short: Vec<char> = vec!['-', 'y'];
    assert(short@ =~= seq!['-', 'y']);
    let long: Vec<char> = vec!['-', '-', 'y', 'e', 's'];
    assert(long@ =~= seq!['-', '-', 'y', 'e', 's']);
    str_is(s, &short) || str_is(s, &long)
}

fn is_module_arg(s: &str) -> (b: bool)
    ensures
        b == is_module_flag(s@),
{
    let short: Vec<char> = vec!['-', 'm'];
    assert(short@ =~= seq!['-', 'm']);
    let long: Vec<char> = vec!['-', '-', 'm', 'o', 'd', 'u', 'l', 'e'];
    assert(long@ =~= seq!['-', '-', 'm', 'o', 'd', 'u', 'l', 'e']);
    str_is(s, &short) || str_is(s, &long)
}

/// First argument that is not a flag.
fn first_non_flag(args: &[String]) -> (r: Option<usize>)
    ensures
        r matches Some(k) ==> k < args@.len() && Some(k as int) == first_where(args@.len() as int, |i: int| !starts_dash(strings_view(args@)[i])),
        r is None ==> first_where(args@.len() as int, |i: int| !starts_dash(strings_view(args@)[i])) is None,
{
    let ghost a = strings_view(args@);
    let ghost p = |i: int| !starts_dash(a[i]);
    let mut i: usize = 0;
    while i < args.len()
        invariant
            i <= args@.len(),
            a == strings_view(args@),
            p == (|i: int| !starts_dash(a[i])),
            forall|j: int| 0 <= j < i ==> !#[trigger] p(j),
        decreases args.len() - i,
    {
        assert(a[i as int] == args@[i as int]@);
        if !str_starts_dash(args[i].as_str()) {
            proof {
                lemma_first_where_found(args@.len() as int, p, i as int);
            }
            return Some(i);
        }
        i = i + 1;
    }
    proof {
        lemma_first_where_none(args@.len() as int, p);
    }
    None
}

/// Index of the npm package argument for npx (see [`npx_package_index`]).
pub fn find_npx_package_arg_index(args: &[String]) -> (r: Option<usize>)
    ensures
        r matches Some(k) ==> k < args@.len() && Some(k as int) == npx_package_index(strings_view(args@)),
        r is None ==> npx_package_index(strings_view(args@)) is None,
{
    let ghost a = strings_view(args@);
    let ghost p = |i: int| yes_hit(a, i);
    let mut index: usize = 0;
    while index < args.len()
        invariant
            index <= args@.len(),
            a == strings_view(args@),
            p == (|i: int| yes_hit(a, i)),
            forall|j: int| 0 <= j < index ==> !#[trigger] p(j),
        decreases args.len() - index,
    {
        assert(a[index as int] == args@[index as int]@);
        if is_yes_arg(args[index].as_str()) {
            let next = index + 1;
            if next < args.len() {
                assert(a[next as int] == args@[next as int]@);
                if !str_starts_dash(args[next].as_str()) {
                    proof {
                        lemma_first_where_found(a.len() as int, p, index as int);
                    }
                    return Some(next);
                }
            }
        }
        index = index + 1;
    }
    proof {
        lemma_first_where_none(a.len() as int, p);
    }
    first_non_flag(args)
}

/// Index of the package argument for uvx or `uv run` invocations.
pub fn find_uv_package_arg_index(command: &str, args: &[String]) -> (r: Option<usize>)
    ensures
        r matches Some(k) ==> k < args@.len() && Some(k as int) == uv_package_index(command@, strings_view(args@)),
        r is None ==> uv_package_index(command@, strings_view(args@)) is None,
{
    let uvx: Vec<char> = vec!['u', 'v', 'x'];
    assert(uvx@ =~= seq!['u', 'v', 'x']);
    let uv: Vec<char> = vec!['u', 'v'];
    assert(uv@ =~= seq!['u', 'v']);
    let run: Vec<char> = vec!['r', 'u', 'n'];
    assert(run@ =~= seq!['r', 'u', 'n']);
    let ghost a = strings_view(args@);
    if str_is(command, &uvx) {
        return first_non_flag(args);
    }
    if !str_is(command, &uv) || args.len() == 0 {
        return None;
    }
    assert(a[0] == args@[0]@);
    if !str_is(args[0].as_str(), &run) {
        return None;
    }
    let mut index: usize = 1;
    while index < args.len()
        invariant
            1 <= index,
            a == strings_view(args@),
            uv_package_index(command@, a) == uv_run_scan(a, 1),
            command@ == lit_uv(),
            a.len() > 0 && a[0] == lit_run(),
            uv_run_scan(a, 1) == uv_run_scan(a, index as int),
        decreases args.len() + 2 - index,
    {
        assert(a[index as int] == args@[index as int]@);
        if str_starts_dash(args[index].as_str()) {
            if is_module_arg(args[index].as_str()) {
                if args.len() - index < 2 {
                    assert(uv_run_scan(a, index + 2) is None);
                    return None;
                }
                index = index + 2;
                continue;
            }
            index = index + 1;
            continue;
        }
        assert(uv_run_scan(a, index as int) == Some(index as int));
        return Some(index);
    }
    assert(uv_run_scan(a, index as int) is None);
    None
}

/// `package` split into its name and optional version tag: a scoped name
/// (`@scope/pkg@ver`) splits at the first `@` after the scope, any other at
/// the last `@`.
pub open spec fn split_npm(p: Seq<char>) -> (Seq<char>, Option<Seq<char>>) {
    if p.len() > 0 && p[0] == '@' {
        match first_index(p.drop_first(), '@') {
            Some(a) => (p.take(1 + a), Some(p.skip(2 + a))),
            None => (p, None),
        }
    } else {
        match last_index(p, '@') {
            Some(a) => (p.take(a), Some(p.skip(a + 1))),
            None => (p, None),
        }
    }
}

/// The package name without an `==version` prefix or `@version` suffix.
pub open spec fn strip_version(p: Seq<char>) -> Seq<char> {
    if seq!['=', '='].is_prefix_of(p) {
        p.skip(2)
    } else {
        split_npm(p).0
    }
}

/// `package` with its npm version tag set to `tag` (leading `@` ignored);
/// unchanged when the tag is empty.
pub open spec fn npm_tagged(p: Seq<char>, tag: Seq<char>) -> Seq<char> {
    let t = strip_start_char(tag, '@');
    if t.len() == 0 {
        p
    } else {
        split_npm(p).0 + seq!['@'] + t
    }
}

/// `package` with its PEP 440 pin set to `version` (leading `=` ignored);
/// unchanged when the version is empty.
pub open spec fn uv_tagged(p: Seq<char>, version: Seq<char>) -> Seq<char> {
    let t = strip_start_char(version, '=');
    if t.len() == 0 {
        p
    } else {
        strip_version(p) + seq!['=', '='] + t
    }
}

/// Split an npm-style package arg into name and optional version tag.
pub fn split_npm_package_arg(package: &str) -> (r: (String, Option<String>))
    ensures
        r.0@ == split_npm(package@).0,
        r.1 is Some <==> split_npm(package@).1 is Some,
        r.1 is Some ==> r.1->0@ == split_npm(package@).1->0,
{
    let p = chars_of(package);
    if p.len() > 0 && p[0] == '@' {
        let scoped = slice_chars(&p, 1, p.len());
        assert(scoped@ =~= p@.drop_first());
        match find_char(&scoped, '@') {
            Some(at) => {
                let name = slice_chars(&p, 0, 1 + at);
                let tag = slice_chars(&p, 2 + at, p.len());
                assert(name@ =~= p@.take(1 + at));
                assert(tag@ =~= p@.skip(2 + at));
                (string_of(&name), Some(string_of(&tag)))
            },
            None => (string_of(&p), None),
        }
    } else {
        match rfind_char(&p, '@') {
            Some(at) => {
                let name = slice_chars(&p, 0, at);
                let tag = slice_chars(&p, at + 1, p.len());
                assert(name@ =~= p@.take(at as int));
                assert(tag@ =~= p@.skip(at + 1));
                (string_of(&name), Some(string_of(&tag)))
            },
            None => (string_of(&p), None),
        }
    }
}

/// Strip an existing `@version` or `==version` suffix from a package specifier.
pub fn strip_package_version(package: &str) -> (r: String)
    ensures
        r@ == strip_version(package@),
{
    let p = chars_of(package);
    let eq: Vec<char> = vec!['=', '='];
    assert(eq@ =~= seq!['=', '=']);
    if starts_with(&p, &eq) {
        let rest = slice_chars(&p, 2, p.len());
        assert(rest@ =~= p@.skip(2));
        string_of(&rest)
    } else {
        split_npm_package_arg(package).0
    }
}

/// Append or replace an npm version tag on a package argument.
pub fn inject_npm_version_tag(package: &str, tag: &str) -> (r: String)
    ensures
        r@ == npm_tagged(package@, tag@),
{
    let t = trim_start_char(&chars_of(tag), '@');
    if t.len() == 0 {
        return string_of(&chars_of(package));
    }
    let (name, _) = split_npm_package_arg(package);
    let at: Vec<char> = vec!['@'];
    assert(at@ =~= seq!['@']);
    let out = concat(&concat(&chars_of(name.as_str()), &at), &t);
    string_of(&out)
}

/// Append or replace a PEP 440 exact version on a uv package argument.
pub fn inject_uv_version_tag(package: &str, version: &str) -> (r: String)
    ensures
        r@ == uv_tagged(package@, version@),
{
    let t = trim_start_char(&chars_of(version), '=');
    if t.len() == 0 {
        return string_of(&chars_of(package));
    }
    let name = strip_package_version(package);
    let eq: Vec<char> = vec!['=', '='];
    assert(eq@ =~= seq!['=', '=']);
    let out = concat(&concat(&chars_of(name.as_str()), &eq), &t);
    string_of(&out)
}

/// The npm dist-tags that do not pin an exact installed version.
pub open spec fn is_floating_tag_word(t: Seq<char>) -> bool {
    ||| t == seq!['l', 'a', 't', 'e', 's', 't']
    ||| t == seq!['*']
    ||| t == seq!['n', 'e', 'x', 't']
    ||| t == seq!['b', 'e', 't', 'a']
    ||| t == seq!['c', 'a', 'n', 'a', 'r', 'y']
    ||| t == seq!['s', 't', 'a', 'b', 'l', 'e']
    ||| t == seq!['r', 'e', 'l', 'e', 'a', 's', 'e']
}

/// `tag` trimmed, without leading `@`, ASCII-lowercased, is a floating tag.
pub open spec fn is_floating_tag(tag: Seq<char>) -> bool {
    is_floating_tag_word(strip_start_char(trim_ws(tag), '@').map_values(|c: char| ascii_lower(c)))
}

/// Returns true for npm dist-tags that do not pin an exact installed semver.
pub fn npm_version_tag_is_floating(tag: &str) -> (b: bool)
    ensures
        b == is_floating_tag(tag@),
{
    let t = lower_ascii(&trim_start_char(&trim(&chars_of(tag)), '@'));
    let latest: Vec<char> = vec!['l', 'a', 't', 'e', 's', 't'];
    assert(latest@ =~= seq!['l', 'a', 't', 'e', 's', 't']);
    let star: Vec<char> = vec!['*'];
    assert(star@ =~= seq!['*']);
    let next: Vec<char> = vec!['n', 'e', 'x', 't'];
    assert(next@ =~= seq!['n', 'e', 'x', 't']);
    let beta: Vec<char> = vec!['b', 'e', 't', 'a'];
    assert(beta@ =~= seq!['b', 'e', 't', 'a']);
    let canary: Vec<char> = vec!['c', 'a', 'n', 'a', 'r', 'y'];
    assert(canary@ =~= seq!['c', 'a', 'n', 'a', 'r', 'y']);
    let stable: Vec<char> = vec!['s', 't', 'a', 'b', 'l', 'e'];
    assert(stable@ =~= seq!['s', 't', 'a', 'b', 'l', 'e']);
    let release: Vec<char> = vec!['r', 'e', 'l', 'e', 'a', 's', 'e'];
    assert(release@ =~= seq!['r', 'e', 'l', 'e', 'a', 's', 'e']);
    chars_eq(&t, &latest) || chars_eq(&t, &star) || chars_eq(&t, &next) || chars_eq(&t, &beta)
        || chars_eq(&t, &canary) || chars_eq(&t, &stable) || chars_eq(&t, &release)
}

/// Record the end of a digit run: keep its value when it fits in 64 bits.
pub open spec fn flush_run(done: Seq<u64>, run: Seq<char>) -> Seq<u64> {
    if run.len() > 0 && digits_value(run) <= u64::MAX {
        done.push(digits_value(run) as u64)
    } else {
        done
    }
}

/// Left-to-right scan of `s` into finished parts and the current digit run.
pub open spec fn scan_parts(s: Seq<char>) -> (Seq<u64>, Seq<char>)
    decreases s.len(),
{
    if s.len() == 0 {
        (Seq::empty(), Seq::empty())
    } else {
        let prev = scan_parts(s.drop_last());
        if is_digit(s.last()) {
            (prev.0, prev.1.push(s.last()))
        } else {
            (flush_run(prev.0, prev.1), Seq::empty())
        }
    }
}

/// The numeric parts of a version string: each maximal run of ASCII digits
/// that fits in 64 bits, in order (after trimming and dropping leading `v`
/// and `=`).
pub open spec fn version_parts(version: Seq<char>) -> Seq<u64> {
    let s = strip_start_char(strip_start_char(trim_ws(version), 'v'), '=');
    let st = scan_parts(s);
    flush_run(st.0, st.1)
}

proof fn lemma_scan_run_digits(s: Seq<char>)
    ensures
        all_digits(scan_parts(s).1),
    decreases s.len(),
{
    if s.len() > 0 {
        lemma_scan_run_digits(s.drop_last());
    }
}

/// Value of a run of digits, if it fits in 64 bits.
fn run_value(run: &[char]) -> (r: Option<u64>)
    requires
        all_digits(run@),
    ensures
        r is Some <==> digits_value(run@) <= u64::MAX,
        r is Some ==> r->0 == digits_value(run@),
{
    let mut acc: u64 = 0;
    let mut i: usize = 0;
    while i < run.len()
        invariant
            i <= run@.len(),
            all_digits(run@),
            acc as nat == digits_value(run@.take(i as int)),
        decreases run.len() - i,
    {
        let d: u64 = ((run[i] as u32) - ('0' as u32)) as u64;
        proof {
            assert(run@.take(i + 1).drop_last() =~= run@.take(i as int));
            assert(is_digit(run@[i as int]));
        }
        let (m, ovf) = match acc.checked_mul(10) {
            Some(m) => match m.checked_add(d) {
                Some(n) => (n, false),
                None => (0, true),
            },
            None => (0, true),
        };
        if ovf {
            proof {
                lemma_digits_value_prefix_le(run@, i + 1);
            }
            return None;
        }
        acc = m;
        i = i + 1;
    }
    assert(run@.take(run@.len() as int) =~= run@);
    Some(acc)
}

proof fn lemma_digits_value_prefix_le(s: Seq<char>, i: int)
    requires
        0 <= i <= s.len(),
    ensures
        digits_value(s.take(i)) <= digits_value(s),
    decreases s.len() - i,
{
    if i < s.len() {
        lemma_digits_value_prefix_le(s, i + 1);
        assert(s.take(i + 1).drop_last() =~= s.take(i));
    } else {
        assert(s.take(i) =~= s);
    }
}

/// Split a semver-ish string into numeric comparison parts.
pub fn parse_version_parts(version: &str) -> (r: Vec<u64>)
    ensures
        r@ == version_parts(version@),
{
    let s = trim_start_char(&trim_start_char(&trim(&chars_of(version)), 'v'), '=');
    let mut done: Vec<u64> = Vec::new();
    let mut run: Vec<char> = Vec::new();
    let mut i: usize = 0;
    while i < s.len()
        invariant
            i <= s@.len(),
            (done@, run@) == scan_parts(s@.take(i as int)),
        decreases s.len() - i,
    {
        proof {
            assert(s@.take(i + 1).drop_last() =~= s@.take(i as int));
            lemma_scan_run_digits(s@.take(i as int));
        }
        let c = s[i];
        if is_ascii_digit(c) {
            run.push(c);
        } else {
            if run.len() > 0 {
                match run_value(&run) {
                    Some(n) => done.push(n),
                    None => {},
                }
            }
            run = Vec::new();
        }
        i = i + 1;
        assert(run@ =~= scan_parts(s@.take(i as int)).1);
    }
    assert(s@.take(s@.len() as int) =~= s@);
    proof {
        lemma_scan_run_digits(s@);
    }
    if run.len() > 0 {
        match run_value(&run) {
            Some(n) => done.push(n),
            None => {},
        }
    }
    done
}

/// Returns true when `version` looks like a concrete semver (not a dist-tag).
pub fn is_semver_like(version: &str) -> (b: bool)
    ensures
        b == (version_parts(version@).len() > 0),
{
    parse_version_parts(version).len() > 0
}

/// A uv pin carries the requested version: for a version `v` whose text
/// after its leading `=` is non-empty, the pinned package argument ends with
/// `==` and that text, and what comes before it is the same whatever version
/// is asked for (the package's name); an empty version leaves the argument
/// as it was.
pub proof fn law_uv_pin_carries_version(p: Seq<char>, v: Seq<char>, w: Seq<char>)
    ensures
        ({
            let t = strip_start_char(v, '=');
            let r = uv_tagged(p, v);
            &&& t.len() > 0 ==> r.len() >= t.len() + 2
                && r.subrange(r.len() - t.len() - 2, r.len() as int) == seq!['=', '='] + t
            &&& t.len() == 0 ==> r == p
        }),
        ({
            let tv = strip_start_char(v, '=');
            let tw = strip_start_char(w, '=');
            let rv = uv_tagged(p, v);
            let rw = uv_tagged(p, w);
            tv.len() > 0 && tw.len() > 0 ==> rv.take(rv.len() - tv.len() - 2) == rw.take(rw.len() - tw.len() - 2)
        }),
{
    let t = strip_start_char(v, '=');
    let r = uv_tagged(p, v);
    if t.len() > 0 {
        assert(r.subrange(r.len() - t.len() - 2, r.len() as int) =~= seq!['=', '='] + t);
        assert(r.take(r.len() - t.len() - 2) =~= strip_version(p));
    }
    let tw = strip_start_char(w, '=');
    let rw = uv_tagged(p, w);
    if tw.len() > 0 {
        assert(rw.take(rw.len() - tw.len() - 2) =~= strip_version(p));
    }
}

} // verus!
