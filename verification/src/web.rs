//! Web UI delivery: the built UI embedded in the executable, or a directory on
//! disk for development.

use crate::encoding::{hex, hex_string, law_hex_loses_nothing};
use crate::key_list::{holds_key, texts};
use crate::text::{
    chars_of, has_prefix, lemma_split_join, lemma_split_single, parts_at, same, split, split_bounds, starts_with, string_of, trim, trimmed,
};
use vstd::prelude::*;
use vstd::string::*;

verus! {

/// Where the service takes its web UI from.
#[derive(Debug)]
pub enum WebAssets {
    /// The UI captured at compile time.
    Embedded,
    /// A directory on disk (development).
    Directory(String),
    /// API only.
    Disabled,
}

pub const INDEX: &'static str = "index.html";

/// True when the executable carries a usable web UI: `names` are the embedded
/// files.
pub fn embedded_available(names: &Vec<String>) -> (r: bool)
    ensures
        r == texts(names@).contains(INDEX@),
{
    holds_key(names, INDEX)
}

/// Number of files embedded (zero when built without a UI).
pub fn embedded_file_count(names: &Vec<String>) -> (r: usize)
    ensures
        r == names@.len(),
{
    names.len()
}

// ----- which file a path names ----------------------------------------------

/// A path without its leading slashes.
pub open spec fn relative(path: Seq<char>) -> Seq<char>
    decreases path.len(),
{
    if path.len() > 0 && path[0] == '/' {
        relative(path.subrange(1, path.len() as int))
    } else {
        path
    }
}

/// Whether two dots follow each other at a position.
pub open spec fn dots_at(s: Seq<char>, i: int) -> bool {
    0 <= i && i + 1 < s.len() && s[i] == '.' && s[i + 1] == '.'
}

/// Anything but a plain relative path is answered with the index.
pub open spec fn plain(s: Seq<char>) -> bool {
    s.len() > 0 && !s.contains('\\') && forall|i: int| !#[trigger] dots_at(s, i)
}

/// The embedded file that a request path asks for.
pub open spec fn asked_for(path: Seq<char>) -> Seq<char> {
    if plain(relative(path)) {
        relative(path)
    } else {
        INDEX@
    }
}

pub fn requested_file(path: &str) -> (r: String)
    ensures
        r@ == asked_for(path@),
{
    let v = chars_of(path);
    let n: usize = v.len();
    let mut a: usize = 0;
    assert(v@.subrange(0, n as int) =~= v@);
    while a < n && v[a] == '/'
        invariant
            0 <= a <= n == v.len(),
            relative(v@.subrange(a as int, n as int)) == relative(v@),
        decreases n - a,
    {
        assert(v@.subrange(a as int, n as int).subrange(1, n - a) =~= v@.subrange(a + 1, n as int));
        a += 1;
    }
    let ghost raw = v@.subrange(a as int, n as int);
    assert(raw == relative(path@));
    if a == n {
        return INDEX.to_owned();
    }
    let mut i: usize = a;
    while i < n
        invariant
            a <= i <= n == v.len(),
            raw == v@.subrange(a as int, n as int),
            raw == relative(path@),
            forall|k: int| 0 <= k < i - a ==> #[trigger] raw[k] != '\\',
            forall|k: int| 0 <= k < i - a ==> !#[trigger] dots_at(raw, k),
        decreases n - i,
    {
        proof {
            assert(raw[i - a] == v@[i as int]);
            if i < n - 1 {
                assert(raw[i + 1 - a] == v@[i + 1]);
            }
        }
        if v[i] == '\\' {
            return INDEX.to_owned();
        }
        if i < n - 1 && v[i] == '.' && v[i + 1] == '.' {
            assert(dots_at(raw, i - a));
            return INDEX.to_owned();
        }
        assert(!dots_at(raw, i - a));
        i += 1;
    }
    assert(!raw.contains('\\')) by {
        if raw.contains('\\') {
            let k = raw.index_of('\\');
            assert(raw[k] == '\\');
        }
    }
    string_of(&v, a, n)
}

/// Which embedded file answers a request: the one asked for, else the index so
/// that client-side routes deep-link, else none.
pub fn served_file(path: &str, names: &Vec<String>) -> (r: Option<String>)
    ensures
        if texts(names@).contains(asked_for(path@)) {
            r is Some && r->0@ == asked_for(path@)
        } else if texts(names@).contains(INDEX@) {
            r is Some && r->0@ == INDEX@
        } else {
            r is None
        },
{
    let name = requested_file(path);
    if holds_key(names, &name) {
        Some(name)
    } else if holds_key(names, INDEX) {
        Some(INDEX.to_owned())
    } else {
        None
    }
}

// ----- the answer -----------------------------------------------------------

/// The entity tag of a file: its digest in hexadecimal, in quotes.
pub open spec fn etag_of(sha256: Seq<u8>) -> Seq<char> {
    seq!['"'] + hex(sha256) + seq!['"']
}

pub fn etag(sha256: &Vec<u8>) -> (r: String)
    ensures
        r@ == etag_of(sha256@),
{
    let mut s = String::new();
    s.push('"');
    s.append(&hex_string(sha256));
    s.push('"');
    assert(s@ =~= etag_of(sha256@));
    s
}

/// Whether a list of entity tags holds one.
pub open spec fn lists_tag(list: Seq<char>, tag: Seq<char>) -> bool {
    exists|i: int| 0 <= i < split(list, ',').len() && trim(#[trigger] split(list, ',')[i]) == tag
}

/// A list names a tag exactly if one of its parts is that tag, whatever space
/// stands around it: a tag of its own, and one behind a comma.
pub proof fn law_a_list_names_its_tags(list: Seq<char>, tag: Seq<char>)
    requires
        !tag.contains(','),
        trim(tag) == tag,
    ensures
        lists_tag(tag, tag),
        lists_tag(list.push(',') + tag, tag),
{
    lemma_split_single(tag, ',');
    assert(trim(split(tag, ',')[0]) == tag);
    lemma_split_join(list, tag, ',');
    let whole = split(list.push(',') + tag, ',');
    assert(whole[whole.len() - 1] == tag);
    assert(trim(whole[whole.len() - 1]) == tag);
}

/// A tag that is not listed is not found: every part of the list is another.
pub proof fn law_an_unlisted_tag_is_not_found(list: Seq<char>, tag: Seq<char>)
    requires
        forall|i: int| 0 <= i < split(list, ',').len() ==> trim(#[trigger] split(list, ',')[i]) != tag,
    ensures
        !lists_tag(list, tag),
{
}

/// Whether the client has the file already.
pub fn not_modified(if_none_match: Option<&str>, tag: &str) -> (r: bool)
    ensures
        r == (if_none_match is Some && lists_tag(if_none_match->0@, tag@)),
{
    let list = match if_none_match {
        None => {
            return false;
        },
        Some(l) => l,
    };
    let v = chars_of(list);
    let n: usize = v.len();
    let bounds = split_bounds(&v, 0, n, ',');
    assert(v@.subrange(0, n as int) =~= list@);
    let ghost parts = split(list@, ',');
    assert(parts == parts_at(v@, bounds@));
    let mut i: usize = 0;
    while i < bounds.len()
        invariant
            0 <= i <= bounds.len(),
            n == v.len(),
            parts == parts_at(v@, bounds@),
            parts == split(list@, ','),
            if_none_match is Some,
            if_none_match->0@ == list@,
            forall|k: int| 0 <= k < bounds.len() ==> (#[trigger] bounds[k]).0 <= bounds[k].1 <= n,
            forall|k: int| 0 <= k < i ==> trim(#[trigger] parts[k]) != tag@,
        decreases bounds.len() - i,
    {
        let (from, to) = bounds[i];
        let part = string_of(&v, from, to);
        assert(part@ == parts[i as int]);
        let token = trimmed(&part);
        if same(&token, tag) {
            return true;
        }
        i += 1;
    }
    false
}

/// Hashed assets are immutable; everything else is revalidated.
pub fn cache_control(name: &str) -> (r: &'static str)
    ensures
        r@ == (if starts_with(name@, "assets/"@) {
            "public, max-age=31536000, immutable"@
        } else {
            "no-cache"@
        }),
{
    if has_prefix(name, "assets/") {
        "public, max-age=31536000, immutable"
    } else {
        "no-cache"
    }
}

/// The content type of a file with a MIME type; texts are UTF-8.
pub fn content_type(mime: &str) -> (r: String)
    ensures
        r@ == (if starts_with(mime@, "text/"@) || mime@ == "application/javascript"@ {
            mime@ + "; charset=utf-8"@
        } else {
            mime@
        }),
{
    if has_prefix(mime, "text/") || same(mime, "application/javascript") {
        mime.to_owned().concat("; charset=utf-8")
    } else {
        mime.to_owned()
    }
}

/// The answer to a request for an embedded file that is there.
#[derive(Debug)]
pub enum EmbeddedAnswer {
    NotModified,
    File { name: String, content_type: String, cache_control: &'static str, etag: String },
}

/// Answer for a file that is served, given its digest and its MIME type.
pub fn serve_embedded(
    name: String,
    sha256: &Vec<u8>,
    mime: &str,
    if_none_match: Option<&str>,
) -> (r: EmbeddedAnswer)
    ensures
        if if_none_match is Some && lists_tag(if_none_match->0@, etag_of(sha256@)) {
            r == EmbeddedAnswer::NotModified
        } else {
            r matches EmbeddedAnswer::File { name: n, content_type: c, cache_control: k, etag: e }
                && n == name && e@ == etag_of(sha256@) && k@ == (if starts_with(
                name@,
                "assets/"@,
            ) {
                "public, max-age=31536000, immutable"@
            } else {
                "no-cache"@
            }) && c@ == (if starts_with(mime@, "text/"@) || mime@ == "application/javascript"@ {
                mime@ + "; charset=utf-8"@
            } else {
                mime@
            })
        },
{
    let tag = etag(sha256);
    if not_modified(if_none_match, &tag) {
        return EmbeddedAnswer::NotModified;
    }
    EmbeddedAnswer::File {
        content_type: content_type(mime),
        cache_control: cache_control(&name),
        etag: tag,
        name,
    }
}

/// A plain relative name is served as it is asked for, whatever slashes stand
/// before it; anything with a parent step or a backslash in it, and nothing at
/// all, asks for the index.
pub proof fn law_a_plain_name_is_served_as_asked(name: Seq<char>, slashes: nat)
    requires
        name.len() == 0 || name[0] != '/',
    ensures
        ({
            let path = Seq::new(slashes, |i: int| '/') + name;
            let unsafe_name = name.contains('\\') || exists|i: int|
                0 <= i < name.len() - 1 && #[trigger] name[i] == '.' && name[i + 1] == '.';
            &&& name.len() > 0 && !unsafe_name ==> asked_for(path) == name
            &&& name.len() == 0 || unsafe_name ==> asked_for(path) == INDEX@
        }),
    decreases slashes,
{
    let path = Seq::new(slashes, |i: int| '/') + name;
    lemma_relative(name, slashes);
    if exists|i: int| 0 <= i < name.len() - 1 && #[trigger] name[i] == '.' && name[i + 1] == '.' {
        let i = choose|i: int|
            0 <= i < name.len() - 1 && #[trigger] name[i] == '.' && name[i + 1] == '.';
        assert(dots_at(name, i));
    } else {
        assert forall|i: int| !#[trigger] dots_at(name, i) by {
            if dots_at(name, i) {
                assert(name[i] == '.' && name[i + 1] == '.');
            }
        }
    }
}

proof fn lemma_relative(name: Seq<char>, slashes: nat)
    requires
        name.len() == 0 || name[0] != '/',
    ensures
        relative(Seq::new(slashes, |i: int| '/') + name) == name,
    decreases slashes,
{
    let path = Seq::new(slashes, |i: int| '/') + name;
    if slashes == 0 {
        assert(path =~= name);
    } else {
        let fewer = (slashes - 1) as nat;
        assert(path[0] == '/');
        assert(path.subrange(1, path.len() as int) =~= Seq::new(fewer, |i: int| '/') + name);
        lemma_relative(name, fewer);
    }
}

/// Files that differ in their digest differ in their entity tag.
pub proof fn law_a_tag_tells_files_apart(a: Seq<u8>, b: Seq<u8>)
    requires
        a.len() == b.len(),
        etag_of(a) == etag_of(b),
    ensures
        a == b,
{
    let x = etag_of(a);
    let y = etag_of(b);
    assert(hex(a) =~= x.subrange(1, x.len() - 1));
    assert(hex(b) =~= y.subrange(1, y.len() - 1));
    law_hex_loses_nothing(a, b);
}

/// No request reaches outside the embedded files: the file asked for is never
/// written with a parent step or a backslash.
pub proof fn law_requests_stay_inside(path: Seq<char>, i: int)
    ensures
        !asked_for(path).contains('\\'),
        !dots_at(asked_for(path), i),
{
    reveal_strlit("index.html");
    assert(INDEX@ == "index.html"@);
}

} // verus!
