//! What the paths of each format mean: which are indexes and which are files, and which
//! package and version they name.

use vstd::prelude::*;

use crate::cut::cut_once;
use crate::repo::engine::Kind;
use crate::repo::gomod::{go_kind_of, go_package_of, go_type_of, go_version_of};
use crate::repo::maven::{maven_kind_of, maven_package_of, maven_type_of, maven_version_of};
use crate::repo::path::{base_name, ext_of, joined};
use crate::text::{
    ends, find_from, find_in, join, lemma_find_from, occurs_at, split, starts, trim_both, trim_end,
    trim_start,
};

verus! {

// ---------------------------------------------------------------------------
// Texts

/// A text ends with what was put behind it.
pub proof fn lemma_ends_with_tail(a: Seq<char>, b: Seq<char>)
    ensures
        ends(a + b, b),
{
    assert((a + b).skip(a.len() as int) =~= b);
}

/// A text that ends with another has its last character.
pub proof fn lemma_ends_last(s: Seq<char>, p: Seq<char>)
    requires
        ends(s, p),
        p.len() > 0,
    ensures
        s.len() > 0,
        s.last() == p.last(),
{
    assert(s.skip(s.len() - p.len()).last() == s.last());
}

/// Where `p` holds a character that nothing before it holds, the first `p` is the one
/// behind `a`.
pub proof fn lemma_cut_behind(a: Seq<char>, p: Seq<char>, b: Seq<char>, k: int)
    requires
        0 <= k < p.len(),
        !a.contains(p[k]),
        forall|j: int| 0 <= j < k ==> p[j] != p[k],
    ensures
        find_in(a + p + b, p) == Some(a.len() as int),
        cut_once(a + p + b, p) == Some((a, b)),
{
    let s = a + p + b;
    let n = a.len() as int;
    assert(s.subrange(n, n + p.len()) =~= p);
    assert(occurs_at(s, p, n));
    assert forall|i: int| 0 <= i < n implies !occurs_at(s, p, i) by {
        lemma_not_before(a, p, b, k, i);
    }
    lemma_first_place(s, p, 0, n);
    assert(s.take(n) =~= a);
    assert(s.skip(n + p.len()) =~= b);
}

proof fn lemma_not_before(a: Seq<char>, p: Seq<char>, b: Seq<char>, k: int, i: int)
    requires
        0 <= k < p.len(),
        !a.contains(p[k]),
        forall|j: int| 0 <= j < k ==> p[j] != p[k],
        0 <= i < a.len(),
    ensures
        !occurs_at(a + p + b, p, i),
{
    let s = a + p + b;
    if occurs_at(s, p, i) {
        assert(s.subrange(i, i + p.len())[k] == s[i + k]);
        if i + k < a.len() {
            assert(a[i + k] == p[k]);
            assert(a.contains(p[k]));
        } else {
            assert(s[i + k] == p[i + k - a.len()]);
        }
    }
}

proof fn lemma_first_place(s: Seq<char>, p: Seq<char>, i: int, n: int)
    requires
        0 <= i <= n,
        occurs_at(s, p, n),
        forall|j: int| i <= j < n ==> !occurs_at(s, p, j),
    ensures
        find_from(s, p, i) == Some(n),
    decreases n - i,
{
    if i < n {
        lemma_first_place(s, p, i + 1, n);
    }
}

/// What is put together of segments without separators comes apart into them.
pub proof fn lemma_join_splits(parts: Seq<Seq<char>>, c: char)
    requires
        parts.len() > 0,
        forall|i: int| 0 <= i < parts.len() ==> !(#[trigger] parts[i]).contains(c),
    ensures
        split(join(parts, seq![c]), c) == parts,
    decreases parts.len(),
{
    let last = parts.last();
    assert(!parts[parts.len() - 1].contains(c));
    if parts.len() == 1 {
        lemma_one_piece(last, c);
        assert(parts =~= seq![last]);
    } else {
        let front = parts.drop_last();
        assert forall|i: int| 0 <= i < front.len() implies !(#[trigger] front[i]).contains(c) by {
            assert(front[i] == parts[i]);
        }
        lemma_join_splits(front, c);
        lemma_split_behind(join(front, seq![c]), last, c);
        assert(split(join(front, seq![c]), c).push(last) =~= parts);
    }
}

/// A text without the separator is one piece.
pub proof fn lemma_one_piece(s: Seq<char>, c: char)
    requires
        !s.contains(c),
    ensures
        split(s, c) == seq![s],
    decreases s.len(),
{
    if s.len() > 0 {
        let t = s.drop_last();
        assert forall|i: int| 0 <= i < t.len() implies t[i] != c by {
            assert(s.contains(s[i]));
        }
        lemma_one_piece(t, c);
        assert(s.contains(s.last()));
        assert(t.push(s.last()) =~= s);
        assert(split(s, c) =~= seq![s]);
    } else {
        assert(s =~= Seq::empty());
    }
}

/// A last segment is the last piece.
pub proof fn lemma_split_behind(a: Seq<char>, b: Seq<char>, c: char)
    requires
        !b.contains(c),
    ensures
        split(a + seq![c] + b, c) == split(a, c).push(b),
    decreases b.len(),
{
    let s = a + seq![c] + b;
    if b.len() == 0 {
        assert(s.drop_last() =~= a);
        assert(s.last() == c);
        assert(b =~= Seq::empty());
    } else {
        let d = b.drop_last();
        assert forall|i: int| 0 <= i < d.len() implies d[i] != c by {
            assert(b.contains(b[i]));
        }
        lemma_split_behind(a, d, c);
        assert(s.drop_last() =~= a + seq![c] + d);
        assert(s.last() == b.last());
        assert(b.contains(b.last()));
        let p = split(a, c).push(d);
        assert(p.drop_last() =~= split(a, c));
        assert(d.push(b.last()) =~= b);
    }
}

// ---------------------------------------------------------------------------
// Paths in general

/// The last element of a path is what stands behind its last slash.
pub proof fn last_element_is_the_file(dir: Seq<char>, file: Seq<char>)
    requires
        file.len() > 0,
        !file.contains('/'),
    ensures
        base_name(dir + "/"@ + file) == file,
        base_name(file) == file,
{
    reveal_strlit("/");
    let p = dir + "/"@ + file;
    assert("/"@ =~= seq!['/']);
    assert(file.contains(file.last()));
    assert(p.last() == file.last());
    lemma_split_behind(dir, file, '/');
    lemma_one_piece(file, '/');
}

/// An upstream URL and a path are put together with one slash between them, however many
/// either brings along.
pub proof fn one_slash_between(base: Seq<char>, path: Seq<char>)
    requires
        base.len() > 0 ==> base.last() != '/',
        path.len() > 0 ==> path[0] != '/',
    ensures
        joined(base, path) == base + "/"@ + path,
        joined(base + "/"@, path) == joined(base, path),
        joined(base, "/"@ + path) == joined(base, path),
{
    reveal_strlit("/");
    let b = base + "/"@;
    let p = "/"@ + path;
    assert(b.drop_last() =~= base);
    assert(b.last() == '/');
    assert(p.skip(1) =~= path);
    assert(p[0] == '/');
    assert(trim_end(b, '/') == trim_end(base, '/'));
    assert(trim_start(p, '/') == trim_start(path, '/'));
}

// ---------------------------------------------------------------------------
// Go

proof fn lemma_go_literals()
    ensures
        "/@latest"@.len() == 8,
        "/@latest"@.last() == 't',
        "/@latest"@[0] == '/',
        "/@latest"@[1] == '@',
        "/@latest"@[2] == 'l',
        "/@v/list"@.len() == 8,
        "/@v/list"@.last() == 't',
        "/@v/list"@[1] == '@',
        "/@v/list"@[2] == 'v',
        "/@v/"@ == seq!['/', '@', 'v', '/'],
        "/@v/list"@ == "/@v/"@ + "list"@,
        "list"@.last() == 't',
        "list"@.len() == 4,
        ".info"@.len() == 5,
        ".info"@.last() == 'o',
        ".mod"@.len() == 4,
        ".mod"@.last() == 'd',
        ".zip"@.len() == 4,
        ".zip"@.last() == 'p',
        ""@ == Seq::<char>::empty(),
{
    reveal_strlit("/@latest");
    reveal_strlit("/@v/list");
    reveal_strlit("/@v/");
    reveal_strlit("list");
    reveal_strlit(".info");
    reveal_strlit(".mod");
    reveal_strlit(".zip");
    reveal_strlit("");
    assert("/@v/"@ =~= seq!['/', '@', 'v', '/']);
    assert("/@v/list"@ =~= "/@v/"@ + "list"@);
    assert(""@ =~= Seq::<char>::empty());
}

/// What of a module may change upstream is an index: its newest version, its list of
/// versions and the account of each. The files of a version never change.
pub proof fn go_indexes_and_files(module: Seq<char>, version: Seq<char>)
    ensures
        go_kind_of(module + "/@latest"@) == Kind::Metadata,
        go_kind_of(module + "/@v/list"@) == Kind::Metadata,
        go_kind_of(module + "/@v/"@ + version + ".info"@) == Kind::Metadata,
        go_kind_of(module + "/@v/"@ + version + ".mod"@) == Kind::Artifact,
        go_kind_of(module + "/@v/"@ + version + ".zip"@) == Kind::Artifact,
{
    lemma_go_literals();
    let dir = module + "/@v/"@ + version;
    lemma_ends_with_tail(module, "/@latest"@);
    lemma_ends_with_tail(module, "/@v/list"@);
    lemma_ends_with_tail(dir, ".info"@);
    lemma_go_file(dir + ".mod"@, 'd');
    lemma_go_file(dir + ".zip"@, 'p');
}

proof fn lemma_go_file(p: Seq<char>, c: char)
    requires
        p.len() > 0,
        p.last() == c,
        c != 't',
        c != 'o',
    ensures
        !ends(p, "/@v/list"@),
        !ends(p, "/@latest"@),
        !ends(p, ".info"@),
{
    lemma_go_literals();
    if ends(p, "/@v/list"@) {
        lemma_ends_last(p, "/@v/list"@);
    }
    if ends(p, "/@latest"@) {
        lemma_ends_last(p, "/@latest"@);
    }
    if ends(p, ".info"@) {
        lemma_ends_last(p, ".info"@);
    }
}

/// Nothing but those endings makes a path an index.
pub proof fn other_go_paths_are_files(p: Seq<char>)
    requires
        go_kind_of(p) == Kind::Metadata,
    ensures
        p.len() > 0,
        p.last() == 't' || p.last() == 'o',
        p.last() == 't' ==> p.len() >= 8 && p[p.len() - 7] == '@',
{
    lemma_go_literals();
    if ends(p, "/@v/list"@) {
        lemma_ends_last(p, "/@v/list"@);
        assert(p.skip(p.len() - 8)[1] == p[p.len() - 7]);
    } else if ends(p, "/@latest"@) {
        lemma_ends_last(p, "/@latest"@);
        assert(p.skip(p.len() - 8)[1] == p[p.len() - 7]);
    } else {
        lemma_ends_last(p, ".info"@);
    }
}

/// Every path of a module names the module, and those of a version name the version.
pub proof fn go_paths_name_module_and_version(module: Seq<char>, version: Seq<char>)
    requires
        !module.contains('@'),
    ensures
        go_package_of(module + "/@latest"@) == module,
        go_package_of(module + "/@v/list"@) == module,
        go_package_of(module + "/@v/"@ + version + ".info"@) == module,
        go_package_of(module + "/@v/"@ + version + ".mod"@) == module,
        go_package_of(module + "/@v/"@ + version + ".zip"@) == module,
        go_version_of(module + "/@latest"@) == Seq::<char>::empty(),
        go_version_of(module + "/@v/list"@) == Seq::<char>::empty(),
        go_version_of(module + "/@v/"@ + version + ".info"@) == version,
        go_version_of(module + "/@v/"@ + version + ".mod"@) == version,
        go_version_of(module + "/@v/"@ + version + ".zip"@) == version,
{
    lemma_go_literals();
    let v = "/@v/"@;
    let p = module + "/@latest"@;
    lemma_find_from(p, v, 0);
    assert forall|i: int| !occurs_at(p, v, i) by {
        if occurs_at(p, v, i) {
            assert(p.subrange(i, i + v.len())[1] == p[i + 1]);
            assert(p.subrange(i, i + v.len())[2] == p[i + 2]);
            if i + 1 < module.len() {
                assert(module.contains(module[i + 1]));
            } else {
                assert(p[i + 1] == "/@latest"@[i + 1 - module.len()]);
                assert(p[i + 2] == "/@latest"@[i + 2 - module.len()]);
                lemma_one_at("/@latest"@, i + 1 - module.len());
            }
        }
    }
    assert(find_in(p, v) is None);
    lemma_ends_with_tail(module, "/@latest"@);
    assert(p.take(p.len() - 8) =~= module);
    assert(module + "/@v/list"@ =~= module + v + "list"@);
    lemma_cut_behind(module, v, "list"@, 1);
    lemma_go_versionless("list"@);
    lemma_go_version(module, version, ".info"@);
    lemma_go_version(module, version, ".mod"@);
    lemma_go_version(module, version, ".zip"@);
}

proof fn lemma_one_at(s: Seq<char>, i: int)
    requires
        s == "/@latest"@,
        0 <= i < s.len(),
        s[i] == '@',
    ensures
        i == 1,
{
    reveal_strlit("/@latest");
}

proof fn lemma_go_versionless(file: Seq<char>)
    requires
        file.len() > 0,
        file.last() == 't',
    ensures
        !ends(file, ".info"@),
        !ends(file, ".mod"@),
        !ends(file, ".zip"@),
{
    lemma_go_literals();
    if ends(file, ".info"@) {
        lemma_ends_last(file, ".info"@);
    }
    if ends(file, ".mod"@) {
        lemma_ends_last(file, ".mod"@);
    }
    if ends(file, ".zip"@) {
        lemma_ends_last(file, ".zip"@);
    }
}

proof fn lemma_go_version(module: Seq<char>, version: Seq<char>, ext: Seq<char>)
    requires
        !module.contains('@'),
        ext == ".info"@ || ext == ".mod"@ || ext == ".zip"@,
    ensures
        go_package_of(module + "/@v/"@ + version + ext) == module,
        go_version_of(module + "/@v/"@ + version + ext) == version,
{
    lemma_go_literals();
    let file = version + ext;
    assert(module + "/@v/"@ + version + ext =~= module + "/@v/"@ + file);
    lemma_cut_behind(module, "/@v/"@, file, 1);
    lemma_ends_with_tail(version, ext);
    assert(file.take(file.len() - ext.len()) =~= version);
    assert(file.last() == ext.last());
    if ends(file, ".info"@) {
        lemma_ends_last(file, ".info"@);
    }
    if ends(file, ".mod"@) {
        lemma_ends_last(file, ".mod"@);
    }
}

/// The account of a version and the newest version are JSON, a module's files are an
/// archive and a text.
pub proof fn go_paths_have_their_types(dir: Seq<char>)
    ensures
        go_type_of(dir + ".info"@) == "application/json"@,
        go_type_of(dir + "/@latest"@) == "application/json"@,
        go_type_of(dir + ".zip"@) == "application/zip"@,
        go_type_of(dir + ".mod"@) == "text/plain; charset=utf-8"@,
        go_type_of(dir + "/@v/list"@) == "text/plain; charset=utf-8"@,
{
    lemma_go_literals();
    lemma_ends_with_tail(dir, ".info"@);
    lemma_ends_with_tail(dir, "/@latest"@);
    lemma_ends_with_tail(dir, ".zip"@);
    lemma_ends_with_tail(dir, ".mod"@);
    lemma_go_file(dir + ".zip"@, 'p');
    lemma_go_file(dir + ".mod"@, 'd');
    let zip = dir + ".zip"@;
    if ends(zip, ".mod"@) {
        lemma_ends_last(zip, ".mod"@);
    }
    let list = dir + "/@v/list"@;
    lemma_go_versionless(list);
    if ends(list, "/@latest"@) {
        assert(list.skip(list.len() - 8) =~= "/@v/list"@);
    }
}

// ---------------------------------------------------------------------------
// Maven

/// The metadata document of a directory and its checksums may change; every other file
/// never does.
pub proof fn maven_indexes_and_files(dir: Seq<char>, rest: Seq<char>, file: Seq<char>)
    requires
        !rest.contains('/'),
        file.len() > 0,
        !file.contains('/'),
        !starts(file, "maven-metadata.xml"@),
    ensures
        maven_kind_of(dir + "/"@ + ("maven-metadata.xml"@ + rest)) == Kind::Metadata,
        maven_kind_of(dir + "/"@ + file) == Kind::Artifact,
{
    reveal_strlit("maven-metadata.xml");
    let m = "maven-metadata.xml"@ + rest;
    assert forall|i: int| 0 <= i < m.len() implies m[i] != '/' by {
        if i >= 18 {
            assert(rest.contains(rest[i - 18]));
        }
    }
    last_element_is_the_file(dir, m);
    last_element_is_the_file(dir, file);
    assert(m.take(18) =~= "maven-metadata.xml"@);
}

/// A file in the directory of a version names its group, its artifact and its version.
pub proof fn maven_files_name_their_coordinate(
    group: Seq<Seq<char>>,
    artifact: Seq<char>,
    version: Seq<char>,
    file: Seq<char>,
)
    requires
        group.len() > 0,
        group[0].len() > 0,
        forall|i: int| 0 <= i < group.len() ==> !(#[trigger] group[i]).contains('/'),
        !artifact.contains('/'),
        !version.contains('/'),
        file.len() > 0,
        !file.contains('/'),
        !starts(file, "maven-metadata.xml"@),
    ensures
        maven_package_of(join(group.push(artifact).push(version).push(file), "/"@)) == join(
            group,
            "."@,
        ) + ":"@ + artifact,
        maven_version_of(join(group.push(artifact).push(version).push(file), "/"@)) == version,
{
    reveal_strlit("/");
    assert("/"@ =~= seq!['/']);
    let ga = group.push(artifact);
    let gav = ga.push(version);
    let parts = gav.push(file);
    let p = join(parts, "/"@);
    assert forall|i: int| 0 <= i < parts.len() implies !(#[trigger] parts[i]).contains('/') by {
        if i < group.len() {
            assert(parts[i] == group[i]);
        }
    }
    lemma_join_splits(parts, '/');
    assert(parts.drop_last() =~= gav);
    let dir = join(gav, "/"@);
    assert(p =~= dir + "/"@ + file);
    last_element_is_the_file(dir, file);
    lemma_join_starts(parts);
    assert(file.contains(file.last()));
    assert(p.last() == file.last());
    assert(group[0].contains(group[0][0]));
    assert(p[0] == group[0][0]);
    assert(trim_both(p, '/') == p);
    assert(parts.take(parts.len() - 2) =~= ga);
    assert(ga.drop_last() =~= group);
}

/// What is put together starts with its first part.
proof fn lemma_join_starts(parts: Seq<Seq<char>>)
    requires
        parts.len() > 0,
        parts[0].len() > 0,
    ensures
        join(parts, "/"@).len() > 0,
        join(parts, "/"@)[0] == parts[0][0],
    decreases parts.len(),
{
    if parts.len() > 1 {
        lemma_join_starts(parts.drop_last());
    }
}

/// Documents and archives go out under their own content types.
pub proof fn maven_files_have_their_types(name: Seq<char>)
    ensures
        maven_type_of(name + ".xml"@) == "application/xml"@,
        maven_type_of(name + ".pom"@) == "application/xml"@,
        maven_type_of(name + ".jar"@) == "application/java-archive"@,
        maven_type_of(name + ".war"@) == "application/java-archive"@,
        maven_type_of(name + ".module"@) == "application/json"@,
        maven_type_of(name + ".json"@) == "application/json"@,
        maven_type_of(name + ".sha1"@) == "text/plain"@,
        maven_type_of(name + ".md5"@) == "text/plain"@,
        maven_type_of(name + ".sha256"@) == "text/plain"@,
        maven_type_of(name + ".sha512"@) == "text/plain"@,
{
    lemma_maven_literals();
    lemma_ends_with_tail(name, ".xml"@);
    lemma_ends_with_tail(name, ".pom"@);
    lemma_ends_with_tail(name, ".jar"@);
    lemma_ends_with_tail(name, ".war"@);
    lemma_ends_with_tail(name, ".module"@);
    lemma_ends_with_tail(name, ".json"@);
    lemma_ends_with_tail(name, ".sha1"@);
    lemma_ends_with_tail(name, ".md5"@);
    lemma_ends_with_tail(name, ".sha256"@);
    lemma_ends_with_tail(name, ".sha512"@);
    lemma_maven_differs(name + ".jar"@);
    lemma_maven_differs(name + ".war"@);
    lemma_maven_differs(name + ".module"@);
    lemma_maven_differs(name + ".json"@);
    lemma_maven_differs(name + ".sha1"@);
    lemma_maven_differs(name + ".md5"@);
    lemma_maven_differs(name + ".sha256"@);
    lemma_maven_differs(name + ".sha512"@);
}

proof fn lemma_maven_literals()
    ensures
        ".xml"@.len() == 4 && ".xml"@.last() == 'l',
        ".pom"@.len() == 4 && ".pom"@.last() == 'm',
        ".jar"@.len() == 4 && ".jar"@.last() == 'r',
        ".war"@.len() == 4 && ".war"@.last() == 'r',
        ".module"@.len() == 7 && ".module"@.last() == 'e',
        ".json"@.len() == 5 && ".json"@.last() == 'n',
        ".sha1"@.len() == 5 && ".sha1"@.last() == '1',
        ".md5"@.len() == 4 && ".md5"@.last() == '5',
        ".sha256"@.len() == 7 && ".sha256"@.last() == '6',
        ".sha512"@.len() == 7 && ".sha512"@.last() == '2',
{
    reveal_strlit(".xml");
    reveal_strlit(".pom");
    reveal_strlit(".jar");
    reveal_strlit(".war");
    reveal_strlit(".module");
    reveal_strlit(".json");
    reveal_strlit(".sha1");
    reveal_strlit(".md5");
    reveal_strlit(".sha256");
    reveal_strlit(".sha512");
}

proof fn lemma_maven_differs(p: Seq<char>)
    requires
        p.len() > 0,
    ensures
        p.last() != 'l' ==> !ends(p, ".xml"@),
        p.last() != 'm' ==> !ends(p, ".pom"@),
        p.last() != 'r' ==> !ends(p, ".jar"@) && !ends(p, ".war"@),
        p.last() != 'e' ==> !ends(p, ".module"@),
        p.last() != 'n' ==> !ends(p, ".json"@),
{
    lemma_maven_literals();
    if ends(p, ".xml"@) {
        lemma_ends_last(p, ".xml"@);
    }
    if ends(p, ".pom"@) {
        lemma_ends_last(p, ".pom"@);
    }
    if ends(p, ".jar"@) {
        lemma_ends_last(p, ".jar"@);
    }
    if ends(p, ".war"@) {
        lemma_ends_last(p, ".war"@);
    }
    if ends(p, ".module"@) {
        lemma_ends_last(p, ".module"@);
    }
    if ends(p, ".json"@) {
        lemma_ends_last(p, ".json"@);
    }
}

/// The ending of a file is what stands from its last dot on.
pub proof fn endings_start_at_the_last_dot(dir: Seq<char>, stem: Seq<char>, ending: Seq<char>)
    requires
        !stem.contains('/'),
        !ending.contains('/'),
        !ending.contains('.'),
        ending.len() > 0,
    ensures
        ext_of(dir + seq!['/'] + (stem + seq!['.'] + ending)) == seq!['.'] + ending,
        ext_of(dir + seq!['/'] + ending).len() == 0,
{
    let file = stem + seq!['.'] + ending;
    assert(!file.contains('/')) by {
        assert forall|i: int| 0 <= i < file.len() implies file[i] != '/' by {
            if i < stem.len() {
                assert(stem.contains(stem[i]));
            } else if i > stem.len() {
                assert(ending.contains(ending[i - stem.len() - 1]));
            }
        }
    }
    reveal_strlit("/");
    assert("/"@ =~= seq!['/']);
    last_element_is_the_file(dir, file);
    last_element_is_the_file(dir, ending);
    assert(file[stem.len() as int] == '.');
    assert(file.contains('.'));
    lemma_split_behind(stem, ending, '.');
}

/// The metadata of an artifact, and that of a snapshot of it, name its group and artifact,
/// and no version.
pub proof fn maven_metadata_names_its_artifact(
    group: Seq<Seq<char>>,
    artifact: Seq<char>,
    version: Seq<char>,
)
    requires
        group.len() > 0,
        group[0].len() > 0,
        forall|i: int| 0 <= i < group.len() ==> !(#[trigger] group[i]).contains('/'),
        !artifact.contains('/'),
        !version.contains('/'),
        !ends(artifact, "-SNAPSHOT"@),
        ends(version, "-SNAPSHOT"@),
    ensures
        maven_package_of(join(group.push(artifact).push("maven-metadata.xml"@), "/"@)) == join(
            group,
            "."@,
        ) + ":"@ + artifact,
        maven_package_of(
            join(group.push(artifact).push(version).push("maven-metadata.xml"@), "/"@),
        ) == join(group, "."@) + ":"@ + artifact,
        maven_version_of(
            join(group.push(artifact).push(version).push("maven-metadata.xml"@), "/"@),
        ).len() == 0,
{
    reveal_strlit("");
    let ga = group.push(artifact);
    let gav = ga.push(version);
    assert forall|i: int| 0 <= i < gav.len() implies !(#[trigger] gav[i]).contains('/') by {
        if i < group.len() {
            assert(gav[i] == group[i]);
        }
    }
    assert forall|i: int| 0 <= i < ga.len() implies !(#[trigger] ga[i]).contains('/') by {
        assert(ga[i] == gav[i]);
    }
    assert(ga[0] == group[0] && gav[0] == group[0]);
    lemma_metadata_path(ga);
    lemma_metadata_path(gav);
    assert(ga.push("maven-metadata.xml"@).drop_last() =~= ga);
    assert(gav.push("maven-metadata.xml"@).drop_last() =~= gav);
    assert(gav.drop_last() =~= ga);
    assert(ga.drop_last() =~= group);
}

proof fn lemma_metadata_path(dirs: Seq<Seq<char>>)
    requires
        dirs.len() > 0,
        dirs[0].len() > 0,
        forall|i: int| 0 <= i < dirs.len() ==> !(#[trigger] dirs[i]).contains('/'),
    ensures
        ({
            let p = join(dirs.push("maven-metadata.xml"@), "/"@);
            &&& split(trim_both(p, '/'), '/') == dirs.push("maven-metadata.xml"@)
            &&& starts(base_name(p), "maven-metadata.xml"@)
        }),
{
    reveal_strlit("/");
    reveal_strlit("maven-metadata.xml");
    let file = "maven-metadata.xml"@;
    assert("/"@ =~= seq!['/']);
    assert(!file.contains('/')) by {
        assert forall|i: int| 0 <= i < file.len() implies file[i] != '/' by {}
    }
    let parts = dirs.push(file);
    let p = join(parts, "/"@);
    assert forall|i: int| 0 <= i < parts.len() implies !(#[trigger] parts[i]).contains('/') by {
        if i < dirs.len() {
            assert(parts[i] == dirs[i]);
        }
    }
    lemma_join_splits(parts, '/');
    assert(parts.drop_last() =~= dirs);
    let dir = join(dirs, "/"@);
    assert(p =~= dir + "/"@ + file);
    last_element_is_the_file(dir, file);
    lemma_join_starts(parts);
    assert(p.last() == 'l');
    assert(dirs[0].contains(dirs[0][0]));
    assert(p[0] == dirs[0][0]);
    assert(trim_both(p, '/') == p);
    assert(file.take(18) =~= file);
}

} // verus!
