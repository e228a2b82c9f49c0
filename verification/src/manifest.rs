//! The `neopkg.toml` package manifest: reading its `name`, `version` and
//! `description` lines, and writing them back out.
//!
//! Each line is trimmed of Unicode white space; a line that then starts with
//! `name = "`, `version = "` or `description = "` gives that field the rest of
//! the line with its trailing `"` characters removed. The last such line of a
//! field wins; a field without one is empty.

use vstd::prelude::*;
use vstd::std_specs::iter::IteratorSpec;
use vstd::string::StringExecFns;
use crate::text::push_char;

verus! {

broadcast use vstd::string::axiom_spec_iter, vstd::string::next_postcondition;

/// The characters with the Unicode `White_Space` property.
pub open spec fn is_white_space(c: char) -> bool {
    let u = c as u32;
    (0x09 <= u && u <= 0x0d) || u == 0x20 || u == 0x85 || u == 0xa0 || u == 0x1680 || (0x2000 <= u
        && u <= 0x200a) || u == 0x2028 || u == 0x2029 || u == 0x202f || u == 0x205f || u == 0x3000
}

/// Whether `c` has the Unicode `White_Space` property.
pub fn white_space(c: char) -> (b: bool)
    ensures
        b == is_white_space(c),
{
    let u = c as u32;
    (0x09 <= u && u <= 0x0d) || u == 0x20 || u == 0x85 || u == 0xa0 || u == 0x1680 || (0x2000 <= u
        && u <= 0x200a) || u == 0x2028 || u == 0x2029 || u == 0x202f || u == 0x205f || u == 0x3000
}

/// `s` without its leading white space.
pub open spec fn trim_start(s: Seq<char>) -> Seq<char>
    decreases s.len(),
{
    if s.len() > 0 && is_white_space(s[0]) {
        trim_start(s.drop_first())
    } else {
        s
    }
}

/// `s` without its trailing white space.
pub open spec fn trim_end(s: Seq<char>) -> Seq<char>
    decreases s.len(),
{
    if s.len() > 0 && is_white_space(s.last()) {
        trim_end(s.drop_last())
    } else {
        s
    }
}

/// `s` without leading and trailing white space.
pub open spec fn trim(s: Seq<char>) -> Seq<char> {
    trim_end(trim_start(s))
}

/// `s` without its trailing `"` characters.
pub open spec fn strip_quotes(s: Seq<char>) -> Seq<char>
    decreases s.len(),
{
    if s.len() > 0 && s.last() == '"' {
        strip_quotes(s.drop_last())
    } else {
        s
    }
}

/// The lines of `s`: the pieces between newline characters.
pub open spec fn lines_of(s: Seq<char>) -> Seq<Seq<char>>
    decreases s.len(),
{
    if s.len() == 0 {
        seq![seq![]]
    } else {
        let ls = lines_of(s.drop_last());
        if s.last() == '\n' {
            ls.push(seq![])
        } else {
            ls.update(ls.len() - 1, ls.last().push(s.last()))
        }
    }
}

pub open spec fn name_key() -> Seq<char> {
    seq!['n', 'a', 'm', 'e', ' ', '=', ' ', '"']
}

pub open spec fn version_key() -> Seq<char> {
    seq!['v', 'e', 'r', 's', 'i', 'o', 'n', ' ', '=', ' ', '"']
}

pub open spec fn description_key() -> Seq<char> {
    seq!['d', 'e', 's', 'c', 'r', 'i', 'p', 't', 'i', 'o', 'n', ' ', '=', ' ', '"']
}

/// The value a line gives the field with prefix `key`, if it gives one.
pub open spec fn line_value(line: Seq<char>, key: Seq<char>) -> Option<Seq<char>> {
    let t = trim(line);
    if key.len() <= t.len() && t.take(key.len() as int) == key {
        Some(strip_quotes(t.skip(key.len() as int)))
    } else {
        None
    }
}

/// The value the last line of `lines` that gives one gives the field with prefix `key`.
pub open spec fn last_value(lines: Seq<Seq<char>>, key: Seq<char>) -> Option<Seq<char>>
    decreases lines.len(),
{
    if lines.len() == 0 {
        None
    } else {
        match line_value(lines.last(), key) {
            Some(v) => Some(v),
            None => last_value(lines.drop_last(), key),
        }
    }
}

/// The value of the field with prefix `key` in the manifest text `s`, empty when none is given.
pub open spec fn manifest_field(s: Seq<char>, key: Seq<char>) -> Seq<char> {
    match last_value(lines_of(s), key) {
        Some(v) => v,
        None => seq![],
    }
}

proof fn lemma_lines_nonempty(s: Seq<char>)
    ensures
        lines_of(s).len() >= 1,
    decreases s.len(),
{
    if s.len() > 0 {
        lemma_lines_nonempty(s.drop_last());
    }
}

fn char_vec(s: &str) -> (v: Vec<char>)
    ensures
        v@ == s@,
{
    let mut it = s.chars();
    let ghost all = s@;
    let mut v: Vec<char> = Vec::new();
    assert(it.remaining() == all);
    loop
        invariant
            it.remaining() == all.skip(v@.len() as int),
            v@ == all.take(v@.len() as int),
            v@.len() <= all.len(),
        ensures
            v@ == all,
        decreases all.len() - v@.len(),
    {
        match it.next() {
            Some(c) => {
                assert(all.take(v@.len() as int + 1) =~= v@.push(c));
                v.push(c);
                assert(all.skip(v@.len() as int) =~= all.skip(v@.len() - 1).drop_first());
            },
            None => {
                assert(v@ =~= all);
                break;
            },
        }
    }
    v
}

/// The value range of the line `v[a..b]` for the field with prefix `key`.
fn line_field(v: &Vec<char>, a: usize, b: usize, key: &Vec<char>) -> (r: Option<(usize, usize)>)
    requires
        a <= b <= v@.len(),
    ensures
        match r {
            Some((x, y)) => x <= y <= v@.len() && line_value(v@.subrange(a as int, b as int), key@) == Some(
                v@.subrange(x as int, y as int),
            ),
            None => line_value(v@.subrange(a as int, b as int), key@) is None,
        },
{
    let ghost line = v@.subrange(a as int, b as int);
    let mut i = a;
    while i < b && white_space(v[i])
        invariant
            a <= i <= b <= v@.len(),
            line == v@.subrange(a as int, b as int),
            trim_start(line) == trim_start(v@.subrange(i as int, b as int)),
        decreases b - i,
    {
        assert(v@.subrange(i as int, b as int).drop_first() =~= v@.subrange(i + 1, b as int));
        i = i + 1;
    }
    assert(trim_start(line) == v@.subrange(i as int, b as int));
    let mut j = b;
    while j > i && white_space(v[j - 1])
        invariant
            a <= i <= j <= b <= v@.len(),
            line == v@.subrange(a as int, b as int),
            trim_start(line) == v@.subrange(i as int, b as int),
            trim(line) == trim_end(v@.subrange(i as int, j as int)),
        decreases j - i,
    {
        assert(v@.subrange(i as int, j as int).drop_last() =~= v@.subrange(i as int, j - 1));
        j = j - 1;
    }
    assert(trim(line) == v@.subrange(i as int, j as int));
    let klen = key.len();
    if klen > j - i {
        return None;
    }
    let mut k: usize = 0;
    while k < klen
        invariant
            a <= i <= j <= b <= v@.len(),
            klen == key@.len(),
            klen <= j - i,
            k <= klen,
            line == v@.subrange(a as int, b as int),
            trim(line) == v@.subrange(i as int, j as int),
            forall|m: int| 0 <= m < k ==> v@[i + m] == key@[m],
        decreases klen - k,
    {
        if v[i + k] != key[k] {
            assert(v@.subrange(i as int, j as int).take(klen as int)[k as int] != key@[k as int]);
            assert(v@.subrange(i as int, j as int).take(klen as int) != key@);
            return None;
        }
        k = k + 1;
    }
    assert(v@.subrange(i as int, j as int).take(klen as int) =~= key@);
    let start = i + klen;
    let mut e = j;
    assert(v@.subrange(i as int, j as int).skip(klen as int) =~= v@.subrange(start as int, j as int));
    while e > start && v[e - 1] == '"'
        invariant
            start <= e <= j <= v@.len(),
            strip_quotes(v@.subrange(start as int, j as int)) == strip_quotes(v@.subrange(start as int, e as int)),
        decreases e - start,
    {
        assert(v@.subrange(start as int, e as int).drop_last() =~= v@.subrange(start as int, e - 1));
        e = e - 1;
    }
    Some((start, e))
}

/// The characters `v[x..y]` as a `String`.
fn chars_to_string(v: &Vec<char>, x: usize, y: usize) -> (s: String)
    requires
        x <= y <= v@.len(),
    ensures
        s@ == v@.subrange(x as int, y as int),
{
    let mut s = String::new();
    let mut i = x;
    while i < y
        invariant
            x <= i <= y <= v@.len(),
            s@ == v@.subrange(x as int, i as int),
        decreases y - i,
    {
        push_char(&mut s, v[i]);
        assert(v@.subrange(x as int, i + 1) =~= v@.subrange(x as int, i as int).push(v@[i as int]));
        i = i + 1;
    }
    s
}

/// The range of a field's value after the line `v[a..b]`: the line's value
/// when it gives one, else `prev`.
fn update_field(prev: Option<(usize, usize)>, v: &Vec<char>, a: usize, b: usize, key: &Vec<char>) -> (r: Option<(usize, usize)>)
    requires
        a <= b <= v@.len(),
        prev matches Some((x, y)) ==> x <= y <= v@.len(),
    ensures
        r matches Some((x, y)) ==> x <= y <= v@.len(),
        line_value(v@.subrange(a as int, b as int), key@) is Some ==> (r matches Some((x, y)) && line_value(
            v@.subrange(a as int, b as int),
            key@,
        ) == Some(v@.subrange(x as int, y as int))),
        line_value(v@.subrange(a as int, b as int), key@) is None ==> r == prev,
{
    match line_field(v, a, b, key) {
        Some(range) => Some(range),
        None => prev,
    }
}

/// What a field's range stands for, given the lines read so far.
spec fn range_matches(v: Seq<char>, r: Option<(usize, usize)>, lines: Seq<Seq<char>>, key: Seq<char>) -> bool {
    &&& r matches Some((x, y)) ==> x <= y <= v.len()
    &&& match r {
        Some((x, y)) => last_value(lines, key) == Some(v.subrange(x as int, y as int)),
        None => last_value(lines, key) is None,
    }
}

proof fn lemma_range_step(v: Seq<char>, prev: Option<(usize, usize)>, r: Option<(usize, usize)>, done: Seq<Seq<char>>, line: Seq<char>, key: Seq<char>)
    requires
        range_matches(v, prev, done, key),
        r matches Some((x, y)) ==> x <= y <= v.len(),
        line_value(line, key) is Some ==> (r matches Some((x, y)) && line_value(line, key) == Some(
            v.subrange(x as int, y as int),
        )),
        line_value(line, key) is None ==> r == prev,
    ensures
        range_matches(v, r, done.push(line), key),
{
    assert(done.push(line).drop_last() =~= done);
}

/// The fields a manifest gives.
pub struct ManifestFields {
    pub name: String,
    pub version: String,
    pub description: String,
}

/// Reads the `name`, `version` and `description` fields of a manifest; a
/// field that no line gives is empty.
pub fn parse_manifest_text(content: &str) -> (f: ManifestFields)
    ensures
        f.name@ == manifest_field(content@, name_key()),
        f.version@ == manifest_field(content@, version_key()),
        f.description@ == manifest_field(content@, description_key()),
{
    let v = char_vec(content);
    let nk: Vec<char> = vec!['n', 'a', 'm', 'e', ' ', '=', ' ', '"'];
    let vk: Vec<char> = vec!['v', 'e', 'r', 's', 'i', 'o', 'n', ' ', '=', ' ', '"'];
    let dk: Vec<char> = vec!['d', 'e', 's', 'c', 'r', 'i', 'p', 't', 'i', 'o', 'n', ' ', '=', ' ', '"'];
    assert(nk@ =~= name_key());
    assert(vk@ =~= version_key());
    assert(dk@ =~= description_key());
    let mut name: Option<(usize, usize)> = None;
    let mut version: Option<(usize, usize)> = None;
    let mut description: Option<(usize, usize)> = None;
    let ghost mut done: Seq<Seq<char>> = seq![];
    let mut line_start: usize = 0;
    let mut i: usize = 0;
    assert(v@.take(0) =~= Seq::<char>::empty());
    assert(v@.subrange(0, 0) =~= Seq::<char>::empty());
    while i < v.len()
        invariant
            v@ == content@,
            nk@ == name_key(),
            vk@ == version_key(),
            dk@ == description_key(),
            line_start <= i <= v@.len(),
            lines_of(v@.take(i as int)) == done.push(v@.subrange(line_start as int, i as int)),
            range_matches(v@, name, done, name_key()),
            range_matches(v@, version, done, version_key()),
            range_matches(v@, description, done, description_key()),
        decreases v@.len() - i,
    {
        let c = v[i];
        proof {
            assert(v@.take(i + 1).drop_last() =~= v@.take(i as int));
            assert(v@.take(i + 1).last() == c);
        }
        if c == '\n' {
            let ghost line = v@.subrange(line_start as int, i as int);
            let n2 = update_field(name, &v, line_start, i, &nk);
            let v2 = update_field(version, &v, line_start, i, &vk);
            let d2 = update_field(description, &v, line_start, i, &dk);
            proof {
                lemma_range_step(v@, name, n2, done, line, name_key());
                lemma_range_step(v@, version, v2, done, line, version_key());
                lemma_range_step(v@, description, d2, done, line, description_key());
                done = done.push(line);
                assert(v@.subrange(i + 1, i + 1) =~= Seq::<char>::empty());
            }
            name = n2;
            version = v2;
            description = d2;
            line_start = i + 1;
        } else {
            proof {
                assert(v@.subrange(line_start as int, i + 1) =~= v@.subrange(line_start as int, i as int).push(c));
                let ls = done.push(v@.subrange(line_start as int, i as int));
                assert(ls.update(ls.len() - 1, ls.last().push(c)) =~= done.push(
                    v@.subrange(line_start as int, i + 1),
                ));
            }
        }
        i = i + 1;
    }
    let ghost line = v@.subrange(line_start as int, i as int);
    assert(v@.take(i as int) =~= v@);
    let n2 = update_field(name, &v, line_start, i, &nk);
    let v2 = update_field(version, &v, line_start, i, &vk);
    let d2 = update_field(description, &v, line_start, i, &dk);
    proof {
        lemma_range_step(v@, name, n2, done, line, name_key());
        lemma_range_step(v@, version, v2, done, line, version_key());
        lemma_range_step(v@, description, d2, done, line, description_key());
    }
    let name_s = match n2 {
        Some((x, y)) => chars_to_string(&v, x, y),
        None => String::new(),
    };
    let version_s = match v2 {
        Some((x, y)) => chars_to_string(&v, x, y),
        None => String::new(),
    };
    let description_s = match d2 {
        Some((x, y)) => chars_to_string(&v, x, y),
        None => String::new(),
    };
    ManifestFields { name: name_s, version: version_s, description: description_s }
}

/// The version a package gets when its manifest gives none.
pub open spec fn default_version() -> Seq<char> {
    seq!['1', '.', '0', '.', '0']
}

/// The name, version and description a package is built with.
pub struct PackageMeta {
    pub name: String,
    pub version: String,
    pub description: String,
}

/// The fields given by the manifest text, if there is one.
pub open spec fn given_field(manifest: Option<Seq<char>>, key: Seq<char>) -> Seq<char> {
    match manifest {
        Some(c) => manifest_field(c, key),
        None => seq![],
    }
}

/// The name, version and description of a package with the manifest text
/// `manifest`, if any, in a directory named `dir_name`.
pub open spec fn resolved_meta(manifest: Option<Seq<char>>, dir_name: Seq<char>) -> (Seq<char>, Seq<char>, Seq<char>) {
    let n = given_field(manifest, name_key());
    let v = given_field(manifest, version_key());
    (
        if n.len() == 0 { dir_name } else { n },
        if v.len() == 0 { default_version() } else { v },
        given_field(manifest, description_key()),
    )
}

/// Decides a package's metadata from its manifest, if it could be read, and
/// the name of its directory: the name defaults to the directory's name, the
/// version to `1.0.0`, the description to empty.
pub fn package_metadata(manifest: Option<&str>, dir_name: &str) -> (m: PackageMeta)
    ensures
        (m.name@, m.version@, m.description@) == resolved_meta(
            match manifest {
                Some(c) => Some(c@),
                None => None,
            },
            dir_name@,
        ),
{
    let fields = match manifest {
        Some(c) => parse_manifest_text(c),
        None => ManifestFields { name: String::new(), version: String::new(), description: String::new() },
    };
    let name = if fields.name.as_str().is_empty() {
        String::from_str(dir_name)
    } else {
        fields.name
    };
    let version = if fields.version.as_str().is_empty() {
        proof {
            reveal_strlit("1.0.0");
        }
        let d = String::from_str("1.0.0");
        assert(d@ =~= default_version());
        d
    } else {
        fields.version
    };
    PackageMeta { name, version, description: fields.description }
}

pub open spec fn quote_newline() -> Seq<char> {
    seq!['"', '\n']
}

/// The manifest written for a package: the name and version lines, and the
/// description line when the description is not empty.
pub open spec fn manifest_text(name: Seq<char>, version: Seq<char>, description: Seq<char>) -> Seq<char> {
    name_key() + name + quote_newline() + version_key() + version + quote_newline() + (if description.len() > 0 {
        description_key() + description + quote_newline()
    } else {
        seq![]
    })
}

/// Writes the manifest of a package: `name = "..."` and `version = "..."`
/// lines, and a `description = "..."` line when the description is not empty.
pub fn render_manifest(name: &str, version: &str, description: &str) -> (s: String)
    ensures
        s@ == manifest_text(name@, version@, description@),
{
    proof {
        reveal_strlit("name = \"");
        reveal_strlit("version = \"");
        reveal_strlit("description = \"");
        reveal_strlit("\"\n");
    }
    assert("name = \""@ =~= name_key());
    assert("version = \""@ =~= version_key());
    assert("description = \""@ =~= description_key());
    assert("\"\n"@ =~= quote_newline());
    let mut s = String::new();
    s.append("name = \"");
    s.append(name);
    s.append("\"\n");
    s.append("version = \"");
    s.append(version);
    s.append("\"\n");
    if !description.is_empty() {
        s.append("description = \"");
        s.append(description);
        s.append("\"\n");
    }
    assert(s@ =~= manifest_text(name@, version@, description@));
    s
}

/// No newline, and no `"` at the end.
pub open spec fn plain_value(x: Seq<char>) -> bool {
    &&& forall|k: int| 0 <= k < x.len() ==> #[trigger] x[k] != '\n'
    &&& !(x.len() > 0 && x.last() == '"')
}

proof fn lemma_lines_no_newline(s: Seq<char>, u: Seq<char>)
    requires
        forall|k: int| 0 <= k < u.len() ==> #[trigger] u[k] != '\n',
    ensures
        lines_of(s + u) == lines_of(s).update(lines_of(s).len() - 1, lines_of(s).last() + u),
    decreases u.len(),
{
    lemma_lines_nonempty(s);
    if u.len() == 0 {
        assert(s + u =~= s);
        assert(lines_of(s).last() + u =~= lines_of(s).last());
        assert(lines_of(s).update(lines_of(s).len() - 1, lines_of(s).last()) =~= lines_of(s));
    } else {
        let w = u.drop_last();
        assert forall|k: int| 0 <= k < w.len() implies #[trigger] w[k] != '\n' by {
            assert(w[k] == u[k]);
        }
        lemma_lines_no_newline(s, w);
        assert((s + u).drop_last() =~= s + w);
        assert((s + u).last() == u.last());
        assert(u[u.len() - 1] != '\n');
        lemma_lines_nonempty(s + w);
        let big_l = lines_of(s);
        let n = big_l.len() - 1;
        let mid = lines_of(s + w);
        assert(mid == big_l.update(n, big_l.last() + w));
        assert(mid.len() == big_l.len());
        assert(mid.last() == big_l.last() + w);
        assert(lines_of(s + u) == mid.update(n, mid.last().push(u.last())));
        assert((big_l.last() + w).push(u.last()) =~= big_l.last() + u);
        assert(lines_of(s + u) =~= lines_of(s).update(lines_of(s).len() - 1, lines_of(s).last() + u));
    }
}

/// Appending a line `l` (without newline) and a newline to text whose last
/// line is empty adds `l` as a line, followed by an empty last line.
proof fn lemma_lines_add_line(s: Seq<char>, l: Seq<char>)
    requires
        forall|k: int| 0 <= k < l.len() ==> #[trigger] l[k] != '\n',
        lines_of(s).last() == Seq::<char>::empty(),
    ensures
        lines_of(s + l + seq!['\n']) == lines_of(s).drop_last().push(l).push(seq![]),
{
    lemma_lines_nonempty(s);
    lemma_lines_no_newline(s, l);
    assert((s + l + seq!['\n']).drop_last() =~= s + l);
    assert(Seq::<char>::empty() + l =~= l);
    assert(lines_of(s).update(lines_of(s).len() - 1, l) =~= lines_of(s).drop_last().push(l));
}

proof fn lemma_line_value_own(key: Seq<char>, x: Seq<char>)
    requires
        key.len() > 0,
        !is_white_space(key[0]),
        plain_value(x),
    ensures
        line_value(key + x + seq!['"'], key) == Some(x),
{
    let l = key + x + seq!['"'];
    assert(l[0] == key[0]);
    assert(trim_start(l) == l);
    assert(l.last() == '"');
    assert(trim_end(l) == l);
    assert(l.take(key.len() as int) =~= key);
    assert(l.skip(key.len() as int) =~= x.push('"'));
    assert(x.push('"').drop_last() =~= x);
    assert(strip_quotes(x.push('"')) == strip_quotes(x));
}

proof fn lemma_line_value_other(key: Seq<char>, other: Seq<char>, x: Seq<char>)
    requires
        key.len() > 0,
        other.len() > 0,
        !is_white_space(other[0]),
        key[0] != other[0],
    ensures
        line_value(other + x + seq!['"'], key) is None,
{
    let l = other + x + seq!['"'];
    assert(l[0] == other[0]);
    assert(trim_start(l) == l);
    assert(trim_end(l) == l);
    if key.len() <= l.len() {
        assert(l.take(key.len() as int)[0] != key[0]);
    }
}

/// A manifest written for a name, version and description reads back as
/// that name, version and description, provided none of them contains a
/// newline or ends with `"`.
pub proof fn lemma_manifest_text_roundtrip(name: Seq<char>, version: Seq<char>, description: Seq<char>)
    requires
        plain_value(name),
        plain_value(version),
        plain_value(description),
    ensures
        manifest_field(manifest_text(name, version, description), name_key()) == name,
        manifest_field(manifest_text(name, version, description), version_key()) == version,
        manifest_field(manifest_text(name, version, description), description_key()) == description,
{
    let e = Seq::<char>::empty();
    let l1 = name_key() + name + seq!['"'];
    let l2 = version_key() + version + seq!['"'];
    let l3 = description_key() + description + seq!['"'];
    assert forall|k: int| 0 <= k < l1.len() implies #[trigger] l1[k] != '\n' by {
        if name_key().len() <= k < name_key().len() + name.len() {
            assert(l1[k] == name[k - name_key().len()]);
        }
    }
    assert forall|k: int| 0 <= k < l2.len() implies #[trigger] l2[k] != '\n' by {
        if version_key().len() <= k < version_key().len() + version.len() {
            assert(l2[k] == version[k - version_key().len()]);
        }
    }
    assert forall|k: int| 0 <= k < l3.len() implies #[trigger] l3[k] != '\n' by {
        if description_key().len() <= k < description_key().len() + description.len() {
            assert(l3[k] == description[k - description_key().len()]);
        }
    }
    assert(lines_of(e) == seq![e]);
    let c1 = e + l1 + seq!['\n'];
    lemma_lines_add_line(e, l1);
    assert(seq![e].drop_last().push(l1).push(e) =~= seq![l1, e]);
    let c2 = c1 + l2 + seq!['\n'];
    lemma_lines_add_line(c1, l2);
    assert(seq![l1, e].drop_last().push(l2).push(e) =~= seq![l1, l2, e]);
    lemma_line_value_own(name_key(), name);
    lemma_line_value_own(version_key(), version);
    lemma_line_value_own(description_key(), description);
    lemma_line_value_other(name_key(), version_key(), version);
    lemma_line_value_other(name_key(), description_key(), description);
    lemma_line_value_other(version_key(), name_key(), name);
    lemma_line_value_other(version_key(), description_key(), description);
    lemma_line_value_other(description_key(), name_key(), name);
    lemma_line_value_other(description_key(), version_key(), version);
    assert(trim(e) =~= e);
    reveal_with_fuel(last_value, 5);
    if description.len() > 0 {
        let c3 = c2 + l3 + seq!['\n'];
        lemma_lines_add_line(c2, l3);
        assert(seq![l1, l2, e].drop_last().push(l3).push(e) =~= seq![l1, l2, l3, e]);
        assert(manifest_text(name, version, description) =~= c3);
        let ls = seq![l1, l2, l3, e];
        assert(ls.drop_last() =~= seq![l1, l2, l3]);
        assert(ls.drop_last().drop_last() =~= seq![l1, l2]);
        assert(ls.drop_last().drop_last().drop_last() =~= seq![l1]);
    } else {
        assert(manifest_text(name, version, description) =~= c2);
        let ls = seq![l1, l2, e];
        assert(ls.drop_last() =~= seq![l1, l2]);
        assert(ls.drop_last().drop_last() =~= seq![l1]);
        assert(ls.drop_last().drop_last().drop_last() =~= Seq::<Seq<char>>::empty());
        assert(description =~= e);
    }
}

/// Creating a package again from the directory a package was extracted to
/// keeps its name, version and description, provided the name and version
/// are not empty and none of the three contains a newline or ends with `"`.
pub proof fn lemma_extracted_metadata_recreated(
    name: Seq<char>,
    version: Seq<char>,
    description: Seq<char>,
    dir_name: Seq<char>,
)
    requires
        plain_value(name),
        plain_value(version),
        plain_value(description),
        name.len() > 0,
        version.len() > 0,
    ensures
        resolved_meta(Some(manifest_text(name, version, description)), dir_name) == (name, version, description),
{
    lemma_manifest_text_roundtrip(name, version, description);
}

} // verus!
