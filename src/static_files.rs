//! Mapping of request paths to files under a web root: percent-decoding,
//! traversal-safe resolution, and the content type of a file by extension.
use vstd::prelude::*;
use vstd::string::StringSliceAdditionalSpecFns;

use crate::text::{
    chars_eq_str, chars_of, ends_with, lemma_split_nonempty, push_char, push_chars, push_str,
    slice_of, split_chars, split_spec, string_of,
};

verus! {

/// The value of an ASCII hex digit.
pub open spec fn hex_spec(b: u8) -> Option<u8> {
    if 48 <= b && b <= 57 {
        Some((b - 48) as u8)
    } else if 97 <= b && b <= 102 {
        Some((b - 87) as u8)
    } else if 65 <= b && b <= 70 {
        Some((b - 55) as u8)
    } else {
        None
    }
}

/// The value of an ASCII hex digit, `None` for any other byte.
pub fn hex_value(b: u8) -> (r: Option<u8>)
    ensures
        r == hex_spec(b),
{
    if 48u8 <= b && b <= 57u8 {
        Some(b - 48u8)
    } else if 97u8 <= b && b <= 102u8 {
        Some(10 + (b - 97u8))
    } else if 65u8 <= b && b <= 70u8 {
        Some(10 + (b - 65u8))
    } else {
        None
    }
}

pub open spec fn byte_char(b: u8) -> char {
    (b as u32) as char
}

/// Percent-decoding of the bytes of a path: `%XY` gives the byte `XY` as a
/// character, `+` gives a space, every other byte stands for itself; a `%`
/// without two hex digits after it fails.
pub open spec fn percent_spec(b: Seq<u8>) -> Option<Seq<char>>
    decreases b.len(),
{
    if b.len() == 0 {
        Some(Seq::empty())
    } else if b[0] == 37u8 {
        if b.len() < 3 {
            None
        } else {
            match (hex_spec(b[1]), hex_spec(b[2])) {
                (Some(h), Some(l)) => match percent_spec(b.skip(3)) {
                    Some(r) => Some(seq![byte_char((h * 16 + l) as u8)] + r),
                    None => None,
                },
                _ => None,
            }
        }
    } else if b[0] == 43u8 {
        match percent_spec(b.skip(1)) {
            Some(r) => Some(seq![' '] + r),
            None => None,
        }
    } else {
        match percent_spec(b.skip(1)) {
            Some(r) => Some(seq![byte_char(b[0])] + r),
            None => None,
        }
    }
}

pub open spec fn prepend(out: Seq<char>, rest: Option<Seq<char>>) -> Option<Seq<char>> {
    match rest {
        Some(r) => Some(out + r),
        None => None,
    }
}

/// Decodes `%XY` escapes and `+` in a request path.
pub fn percent_decode(input: &str) -> (r: Option<String>)
    ensures
        match r {
            Some(s) => percent_spec(input.spec_bytes()) == Some(s@),
            None => percent_spec(input.spec_bytes()) is None,
        },
{
    let bytes = input.as_bytes();
    let ghost b = bytes@;
    let mut out: Vec<char> = Vec::new();
    let mut i: usize = 0;
    proof {
        assert(b.skip(0) =~= b);
        assert(Seq::<char>::empty() + percent_spec(b).unwrap_or(Seq::empty()) =~= percent_spec(
            b,
        ).unwrap_or(Seq::empty()));
    }
    while i < bytes.len()
        invariant
            b == bytes@,
            b == input.spec_bytes(),
            i <= b.len(),
            percent_spec(b) == prepend(out@, percent_spec(b.skip(i as int))),
        decreases b.len() - i,
    {
        let ghost rest = b.skip(i as int);
        assert(rest[0] == b[i as int]);
        let c = bytes[i];
        if c == 37u8 {
            if bytes.len() - i < 3 {
                return None;
            }
            assert(rest[1] == b[i + 1] && rest[2] == b[i + 2]);
            let hi = match hex_value(bytes[i + 1]) {
                Some(h) => h,
                None => {
                    return None;
                },
            };
            let lo = match hex_value(bytes[i + 2]) {
                Some(l) => l,
                None => {
                    return None;
                },
            };
            let v: u8 = hi * 16 + lo;
            proof {
                assert(rest.skip(3) =~= b.skip(i + 3));
                match percent_spec(b.skip(i + 3)) {
                    Some(r) => {
                        assert(out@.push(byte_char(v)) + r =~= out@ + (seq![byte_char(v)] + r));
                    },
                    None => {},
                }
            }
            out.push(v as char);
            i = i + 3;
        } else {
            let d = if c == 43u8 {
                ' '
            } else {
                c as char
            };
            proof {
                assert(rest.skip(1) =~= b.skip(i + 1));
                match percent_spec(b.skip(i + 1)) {
                    Some(r) => {
                        assert(out@.push(d) + r =~= out@ + (seq![d] + r));
                    },
                    None => {},
                }
            }
            out.push(d);
            i = i + 1;
        }
    }
    proof {
        assert(b.skip(i as int) =~= Seq::<u8>::empty());
        assert(out@ + Seq::<char>::empty() =~= out@);
    }
    Some(string_of(&out))
}

/// The segments of a decoded path that name something: empty and `.`
/// segments are dropped.
pub open spec fn kept_segments(parts: Seq<Seq<char>>) -> Seq<Seq<char>>
    decreases parts.len(),
{
    if parts.len() == 0 {
        Seq::empty()
    } else {
        let prev = kept_segments(parts.drop_last());
        let p = parts.last();
        if p.len() == 0 || p == "."@ {
            prev
        } else {
            prev.push(p)
        }
    }
}

/// The segments joined with `/`.
pub open spec fn join_segments(segs: Seq<Seq<char>>) -> Seq<char>
    decreases segs.len(),
{
    if segs.len() == 0 {
        Seq::empty()
    } else if segs.len() == 1 {
        segs[0]
    } else {
        join_segments(segs.drop_last()) + seq!['/'] + segs.last()
    }
}

/// `root` joined with a relative path, as `Path::join` does.
pub open spec fn join_root(root: Seq<char>, rel: Seq<char>) -> Seq<char> {
    if root.len() == 0 {
        rel
    } else if root.last() == '/' {
        root + rel
    } else {
        root + seq!['/'] + rel
    }
}

/// The file under `web_root` that a request path names: the decoded path's
/// segments below the root, `index.html` for a directory; `None` when the
/// path does not decode or climbs with `..`.
pub open spec fn resolve_spec(web_root: Seq<char>, uri_path: Seq<char>, uri_bytes: Seq<u8>) -> Option<
    Seq<char>,
> {
    match percent_spec(uri_bytes) {
        None => None,
        Some(decoded) => {
            let parts = split_spec(decoded, '/');
            if parts.contains(".."@) {
                None
            } else {
                let segs = kept_segments(parts);
                let all = if ends_with(uri_path, "/"@) || segs.len() == 0 {
                    segs.push("index.html"@)
                } else {
                    segs
                };
                Some(join_root(web_root, join_segments(all)))
            }
        }
    }
}

/// The file under `web_root` for a request path, or `None` for a path that
/// does not decode or tries to leave the root.
pub fn resolve_path(web_root: &str, uri_path: &str) -> (r: Option<String>)
    ensures
        match r {
            Some(s) => resolve_spec(web_root@, uri_path@, uri_path.spec_bytes()) == Some(s@),
            None => resolve_spec(web_root@, uri_path@, uri_path.spec_bytes()) is None,
        },
{
    let decoded = match percent_decode(uri_path) {
        Some(d) => d,
        None => {
            return None;
        },
    };
    let dv = chars_of(decoded.as_str());
    let parts = split_chars(&dv, '/');
    let ghost ps = split_spec(decoded@, '/');
    let mut segs: Vec<Vec<char>> = Vec::new();
    proof {
        reveal_strlit("..");
        reveal_strlit(".");
    }
    for i in 0..parts.len()
        invariant
            parts@.len() == ps.len(),
            ps == split_spec(decoded@, '/'),
            percent_spec(uri_path.spec_bytes()) == Some(decoded@),
            forall|k: int| 0 <= k < parts@.len() ==> #[trigger] parts@[k]@ == ps[k],
            !ps.subrange(0, i as int).contains(".."@),
            segs@.len() == kept_segments(ps.subrange(0, i as int)).len(),
            forall|k: int|
                0 <= k < segs@.len() ==> #[trigger] segs@[k]@ == kept_segments(
                    ps.subrange(0, i as int),
                )[k],
    {
        let ghost sub = ps.subrange(0, i as int);
        proof {
            assert(ps.subrange(0, i + 1).drop_last() =~= sub);
            assert(ps.subrange(0, i + 1).last() == ps[i as int]);
        }
        if chars_eq_str(&parts[i], "..") {
            assert(ps.subrange(0, i + 1)[i as int] == ".."@);
            assert(ps.contains(".."@)) by {
                assert(ps[i as int] == ".."@);
            }
            return None;
        }
        assert(!ps.subrange(0, i + 1).contains(".."@)) by {
            if ps.subrange(0, i + 1).contains(".."@) {
                let t = ps.subrange(0, i + 1);
                let j = choose|j: int| 0 <= j < t.len() && #[trigger] t[j] == ".."@;
                if j < i {
                    assert(sub[j] == ".."@);
                }
            }
        }
        if parts[i].len() > 0 && !chars_eq_str(&parts[i], ".") {
            let s = slice_of(&parts[i], 0, parts[i].len());
            segs.push(s);
        }
    }
    proof {
        assert(ps.subrange(0, parts@.len() as int) =~= ps);
    }
    let uv = chars_of(uri_path);
    let dir_like = uv.len() > 0 && uv[uv.len() - 1] == '/';
    proof {
        reveal_strlit("/");
        if uv.len() > 0 {
            let n = uri_path@.len() as int;
            if uv@.last() == '/' {
                assert(uri_path@.subrange(n - 1, n) =~= "/"@);
            } else {
                assert(uri_path@.subrange(n - 1, n)[0] != "/"@[0]);
            }
        }
    }
    if dir_like || segs.len() == 0 {
        segs.push(chars_of("index.html"));
    }
    let ghost all = if ends_with(uri_path@, "/"@) || kept_segments(ps).len() == 0 {
        kept_segments(ps).push("index.html"@)
    } else {
        kept_segments(ps)
    };
    let mut rel: Vec<char> = Vec::new();
    for i in 0..segs.len()
        invariant
            segs@.len() == all.len(),
            forall|k: int| 0 <= k < segs@.len() ==> #[trigger] segs@[k]@ == all[k],
            rel@ == join_segments(all.subrange(0, i as int)),
    {
        proof {
            assert(all.subrange(0, i + 1).drop_last() =~= all.subrange(0, i as int));
        }
        if i > 0 {
            rel.push('/');
        }
        let ghost before = rel@;
        let mut j: usize = 0;
        while j < segs[i].len()
            invariant
                i < segs@.len(),
                j <= segs@[i as int]@.len(),
                rel@ == before + segs@[i as int]@.subrange(0, j as int),
            decreases segs@[i as int]@.len() - j,
        {
            rel.push(segs[i][j]);
            assert(segs@[i as int]@.subrange(0, j + 1) =~= segs@[i as int]@.subrange(0, j as int).push(
                segs@[i as int]@[j as int],
            ));
            j = j + 1;
        }
        proof {
            assert(segs@[i as int]@.subrange(0, j as int) =~= segs@[i as int]@);
            if i == 0 {
                assert(all.subrange(0, 1) =~= seq![all[0]]);
                assert(before =~= Seq::<char>::empty());
                assert(rel@ =~= all[0]);
            } else {
                assert(all.subrange(0, i + 1).last() == all[i as int]);
            }
        }
    }
    proof {
        assert(all.subrange(0, segs@.len() as int) =~= all);
    }
    let root = chars_of(web_root);
    let mut out = string_of(&root);
    if root.len() > 0 && root[root.len() - 1] != '/' {
        push_char(&mut out, '/');
    }
    push_chars(&mut out, &rel);
    Some(out)
}

/// The extension of the file name at the end of `path`: what follows its
/// last `.`, unless that `.` starts the name.
pub open spec fn extension_of(path: Seq<char>) -> Option<Seq<char>> {
    let parts = split_spec(path, '/');
    let name = parts.last();
    let pieces = split_spec(name, '.');
    if pieces.len() >= 2 && !(pieces.len() == 2 && pieces[0].len() == 0) {
        Some(pieces.last())
    } else {
        None
    }
}

fn extension(path: &str) -> (r: Option<Vec<char>>)
    ensures
        match r {
            Some(e) => extension_of(path@) == Some(e@),
            None => extension_of(path@) is None,
        },
{
    let v = chars_of(path);
    let parts = split_chars(&v, '/');
    proof {
        lemma_split_nonempty(path@, '/');
    }
    let name = &parts[parts.len() - 1];
    let pieces = split_chars(name, '.');
    proof {
        lemma_split_nonempty(name@, '.');
    }
    let n = pieces.len();
    if n >= 2 && !(n == 2 && pieces[0].len() == 0) {
        Some(slice_of(&pieces[n - 1], 0, pieces[n - 1].len()))
    } else {
        None
    }
}

/// The content type that the static server sends for an extension.
pub open spec fn static_type_spec(ext: Option<Seq<char>>) -> Seq<char> {
    match ext {
        Some(e) => if e == "html"@ || e == "htm"@ {
            "text/html; charset=utf-8"@
        } else if e == "js"@ {
            "application/javascript"@
        } else if e == "css"@ {
            "text/css"@
        } else if e == "png"@ {
            "image/png"@
        } else if e == "jpg"@ || e == "jpeg"@ {
            "image/jpeg"@
        } else if e == "svg"@ {
            "image/svg+xml"@
        } else if e == "json"@ || e == "map"@ {
            "application/json"@
        } else if e == "wasm"@ {
            "application/wasm"@
        } else if e == "ico"@ {
            "image/x-icon"@
        } else if e == "woff"@ {
            "font/woff"@
        } else if e == "woff2"@ {
            "font/woff2"@
        } else if e == "ttf"@ {
            "font/ttf"@
        } else if e == "txt"@ {
            "text/plain; charset=utf-8"@
        } else {
            "application/octet-stream"@
        },
        None => "application/octet-stream"@,
    }
}

/// The content type of a static file, by its extension.
pub fn content_type_for(path: &str) -> (r: &'static str)
    ensures
        r@ == static_type_spec(extension_of(path@)),
{
    match extension(path) {
        Some(e) => if chars_eq_str(&e, "html") || chars_eq_str(&e, "htm") {
            "text/html; charset=utf-8"
        } else if chars_eq_str(&e, "js") {
            "application/javascript"
        } else if chars_eq_str(&e, "css") {
            "text/css"
        } else if chars_eq_str(&e, "png") {
            "image/png"
        } else if chars_eq_str(&e, "jpg") || chars_eq_str(&e, "jpeg") {
            "image/jpeg"
        } else if chars_eq_str(&e, "svg") {
            "image/svg+xml"
        } else if chars_eq_str(&e, "json") || chars_eq_str(&e, "map") {
            "application/json"
        } else if chars_eq_str(&e, "wasm") {
            "application/wasm"
        } else if chars_eq_str(&e, "ico") {
            "image/x-icon"
        } else if chars_eq_str(&e, "woff") {
            "font/woff"
        } else if chars_eq_str(&e, "woff2") {
            "font/woff2"
        } else if chars_eq_str(&e, "ttf") {
            "font/ttf"
        } else if chars_eq_str(&e, "txt") {
            "text/plain; charset=utf-8"
        } else {
            "application/octet-stream"
        },
        None => "application/octet-stream",
    }
}

/// The MIME type that the plain WebSocket proxy's file server sends.
pub open spec fn mime_spec(ext: Option<Seq<char>>) -> Seq<char> {
    match ext {
        Some(e) => if e == "html"@ {
            "text/html"@
        } else if e == "css"@ {
            "text/css"@
        } else if e == "js"@ {
            "application/javascript"@
        } else if e == "json"@ {
            "application/json"@
        } else if e == "png"@ {
            "image/png"@
        } else if e == "jpg"@ || e == "jpeg"@ {
            "image/jpeg"@
        } else if e == "gif"@ {
            "image/gif"@
        } else if e == "svg"@ {
            "image/svg+xml"@
        } else if e == "ico"@ {
            "image/x-icon"@
        } else if e == "wasm"@ {
            "application/wasm"@
        } else if e == "ttf"@ {
            "font/ttf"@
        } else if e == "woff"@ {
            "font/woff"@
        } else if e == "woff2"@ {
            "font/woff2"@
        } else {
            "application/octet-stream"@
        },
        None => "application/octet-stream"@,
    }
}

/// The MIME type of a file, by its extension.
pub fn get_mime_type(path: &str) -> (r: &'static str)
    ensures
        r@ == mime_spec(extension_of(path@)),
{
    match extension(path) {
        Some(e) => if chars_eq_str(&e, "html") {
            "text/html"
        } else if chars_eq_str(&e, "css") {
            "text/css"
        } else if chars_eq_str(&e, "js") {
            "application/javascript"
        } else if chars_eq_str(&e, "json") {
            "application/json"
        } else if chars_eq_str(&e, "png") {
            "image/png"
        } else if chars_eq_str(&e, "jpg") || chars_eq_str(&e, "jpeg") {
            "image/jpeg"
        } else if chars_eq_str(&e, "gif") {
            "image/gif"
        } else if chars_eq_str(&e, "svg") {
            "image/svg+xml"
        } else if chars_eq_str(&e, "ico") {
            "image/x-icon"
        } else if chars_eq_str(&e, "wasm") {
            "application/wasm"
        } else if chars_eq_str(&e, "ttf") {
            "font/ttf"
        } else if chars_eq_str(&e, "woff") {
            "font/woff"
        } else if chars_eq_str(&e, "woff2") {
            "font/woff2"
        } else {
            "application/octet-stream"
        },
        None => "application/octet-stream",
    }
}

pub open spec fn strip_leading_slashes(s: Seq<char>) -> Seq<char>
    decreases s.len(),
{
    if s.len() > 0 && s[0] == '/' {
        strip_leading_slashes(s.skip(1))
    } else {
        s
    }
}

/// The file a raw request path asks for, relative to the web root: leading
/// `/` removed, the query cut off, `index.html` for a directory.
pub open spec fn request_file_spec(path: Seq<char>) -> Seq<char> {
    let p = split_spec(strip_leading_slashes(path), '?')[0];
    if p.len() == 0 || p.last() == '/' {
        p + "index.html"@
    } else {
        p
    }
}

/// The relative file path for a raw request path; whether the result stays
/// under the web root is checked on disk by the caller.
pub fn request_file_path(path: &str) -> (r: String)
    ensures
        r@ == request_file_spec(path@),
{
    let v = chars_of(path);
    let mut a: usize = 0;
    proof {
        assert(v@.skip(0) =~= v@);
    }
    while a < v.len() && v[a] == '/'
        invariant
            a <= v.len(),
            strip_leading_slashes(v@.skip(a as int)) == strip_leading_slashes(v@),
        decreases v.len() - a,
    {
        assert(v@.skip(a as int)[0] == v@[a as int]);
        assert(v@.skip(a as int).skip(1) =~= v@.skip(a + 1));
        a = a + 1;
    }
    proof {
        if a < v.len() {
            assert(v@.skip(a as int)[0] == v@[a as int]);
        }
        assert(v@.subrange(a as int, v.len() as int) =~= v@.skip(a as int));
    }
    let rest = slice_of(&v, a, v.len());
    let parts = split_chars(&rest, '?');
    proof {
        lemma_split_nonempty(rest@, '?');
    }
    let p = &parts[0];
    let mut s = string_of(p);
    if p.len() == 0 || p[p.len() - 1] == '/' {
        push_str(&mut s, "index.html");
    }
    s
}

} // verus!
