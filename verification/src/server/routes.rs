use crate::text::{
    ascii_upper, ascii_upper_seq, take_at_most, chars_of, find_last, last_index_of, lemma_last_index_of, push_char,
    push_chars, trim_char, trim_char_chars, trim_ws, trim_ws_chars, upper_is, has_prefix,
    before_first, first_index_of, parsed_u64, opt_str_view, prefix_at, find_first_from, sub_chars,
    lemma_first_index_of, parse_u64_chars, string_of, str_eq, push_str, push_decimal, decimal,
};
use crate::server::auth::{
    carries_claims, issue_token_checked, password_matches, token_at, verify_password,
    TOKEN_TTL_SECS,
};
use crate::server::files::{lookup, remove_entry, upsert, FileItem, TextItem};
use crate::server::state::{
    is_id_of_len, new_id, now_secs, password_required_for, AppState, TEXT_ID_LEN,
};
use crate::server::upload::{
    chunk_count_for, chunk_size_for, count_chunks, effective_chunk_size, session_signature,
    UploadManager, UploadSession, UploadSessionView,
};
use std::sync::Arc;
use vstd::utf8::encode_utf8;
use vstd::prelude::*;

verus! {

/// Characters that may not appear in a stored file name.
pub open spec fn is_forbidden_name_char(c: char) -> bool {
    c == '/' || c == '\\' || c == ':' || c == '*' || c == '?' || c == '"' || c == '<' || c == '>'
        || c == '|' || c == '\0'
}

/// Each forbidden character replaced by `_`.
pub open spec fn replace_forbidden(s: Seq<char>) -> Seq<char> {
    s.map_values(|c: char| if is_forbidden_name_char(c) { '_' } else { c })
}

/// Windows device names (compared after ASCII upper-casing of the stem).
pub open spec fn is_reserved_device_name(u: Seq<char>) -> bool {
    ||| u == seq!['C', 'O', 'N']
    ||| u == seq!['P', 'R', 'N']
    ||| u == seq!['A', 'U', 'X']
    ||| u == seq!['N', 'U', 'L']
    ||| (u.len() == 4 && ((u[0] == 'C' && u[1] == 'O' && u[2] == 'M') || (u[0] == 'L' && u[1]
        == 'P' && u[2] == 'T')) && '1' <= u[3] && u[3] <= '9')
}

/// The part of a file name before its first `.` (the whole name when it has none):
/// Windows reserves a device name whatever extensions follow it.
pub open spec fn name_stem(s: Seq<char>) -> Seq<char> {
    if first_index_of(s, '.') >= 0 {
        s.take(first_index_of(s, '.'))
    } else {
        s
    }
}

/// Whether a cleaned name is no usable file name: empty, `.` or `..` (the last two would
/// name the directory itself or its parent).
pub open spec fn unusable_name(c: Seq<char>) -> bool {
    c.len() == 0 || c == seq!['.'] || c == seq!['.', '.']
}

/// Longest kept file name, in characters.
pub const MAX_NAME_CHARS: usize = 200;

/// The cleaned name before the empty check and truncation.
pub open spec fn cleaned_name(name: Seq<char>) -> Seq<char> {
    trim_ws(trim_char(trim_ws(replace_forbidden(name)), '.'))
}

/// The file name that `sanitize_filename` gives back for `name`.
pub open spec fn sanitized_name(name: Seq<char>) -> Seq<char> {
    let c = cleaned_name(name);
    if unusable_name(c) {
        seq!['f', 'i', 'l', 'e']
    } else {
        let t = take_at_most(c, MAX_NAME_CHARS as nat);
        if is_reserved_device_name(ascii_upper_seq(name_stem(t))) {
            seq!['_'] + t
        } else {
            t
        }
    }
}

fn forbidden_name_char(c: char) -> (b: bool)
    ensures
        b == is_forbidden_name_char(c),
{
    c == '/' || c == '\\' || c == ':' || c == '*' || c == '?' || c == '"' || c == '<' || c == '>'
        || c == '|' || c == '\0'
}

fn reserved_device_stem(u: &[char], n: usize) -> (b: bool)
    requires
        n <= u@.len(),
    ensures
        b == is_reserved_device_name(ascii_upper_seq(u@.take(n as int))),
{
    let ghost up = ascii_upper_seq(u@.take(n as int));
    assert(up.len() == n);
    if n == 3 {
        let a = upper_is(u[0], 'C') && upper_is(u[1], 'O') && upper_is(u[2], 'N');
        let b = upper_is(u[0], 'P') && upper_is(u[1], 'R') && upper_is(u[2], 'N');
        let c = upper_is(u[0], 'A') && upper_is(u[1], 'U') && upper_is(u[2], 'X');
        let d = upper_is(u[0], 'N') && upper_is(u[1], 'U') && upper_is(u[2], 'L');
        assert(up[0] == ascii_upper(u@[0]) && up[1] == ascii_upper(u@[1]) && up[2] == ascii_upper(
            u@[2],
        ));
        assert(a == (up == seq!['C', 'O', 'N'])) by {
            if a {
                assert(up =~= seq!['C', 'O', 'N']);
            }
        }
        assert(b == (up == seq!['P', 'R', 'N'])) by {
            if b {
                assert(up =~= seq!['P', 'R', 'N']);
            }
        }
        assert(c == (up == seq!['A', 'U', 'X'])) by {
            if c {
                assert(up =~= seq!['A', 'U', 'X']);
            }
        }
        assert(d == (up == seq!['N', 'U', 'L'])) by {
            if d {
                assert(up =~= seq!['N', 'U', 'L']);
            }
        }
        a || b || c || d
    } else if n == 4 {
        assert(up[0] == ascii_upper(u@[0]) && up[1] == ascii_upper(u@[1]) && up[2] == ascii_upper(
            u@[2],
        ) && up[3] == ascii_upper(u@[3]));
        let com = upper_is(u[0], 'C') && upper_is(u[1], 'O') && upper_is(u[2], 'M');
        let lpt = upper_is(u[0], 'L') && upper_is(u[1], 'P') && upper_is(u[2], 'T');
        let last = u[3];
        let d = '1' <= last && last <= '9';
        assert(d == ('1' <= up[3] && up[3] <= '9'));
        (com || lpt) && d
    } else {
        false
    }
}

/// Cleans an uploaded file name: forbidden characters become `_`, surrounding white
/// space and dots go, a result that is empty, `.` or `..` becomes `file`, at most 200
/// characters stay, and a name whose part before the first dot is a Windows device name
/// gets a leading `_`.
pub fn sanitize_filename(name: &str) -> (r: String)
    ensures
        r@ == sanitized_name(name@),
{
    let cs = chars_of(name);
    let mut mapped: Vec<char> = Vec::new();
    let mut i: usize = 0;
    while i < cs.len()
        invariant
            i <= cs@.len(),
            cs@ == name@,
            mapped@ == replace_forbidden(cs@).take(i as int),
        decreases cs@.len() - i,
    {
        let c = cs[i];
        if forbidden_name_char(c) {
            mapped.push('_');
        } else {
            mapped.push(c);
        }
        i = i + 1;
        assert(mapped@ == replace_forbidden(cs@).take(i as int));
    }
    assert(replace_forbidden(cs@).take(cs@.len() as int) == replace_forbidden(cs@));
    let t1 = trim_ws_chars(&mapped);
    let t2 = trim_char_chars(&t1, '.');
    let t3 = trim_ws_chars(&t2);
    let unusable = t3.len() == 0 || (t3.len() == 1 && t3[0] == '.') || (t3.len() == 2 && t3[0]
        == '.' && t3[1] == '.');
    proof {
        if t3.len() == 1 && t3[0] == '.' {
            assert(t3@ =~= seq!['.']);
        }
        if t3.len() == 2 && t3[0] == '.' && t3[1] == '.' {
            assert(t3@ =~= seq!['.', '.']);
        }
    }
    assert(unusable == unusable_name(t3@));
    if unusable {
        let mut s = String::new();
        push_char(&mut s, 'f');
        push_char(&mut s, 'i');
        push_char(&mut s, 'l');
        push_char(&mut s, 'e');
        assert(s@ == seq!['f', 'i', 'l', 'e']);
        return s;
    }
    let n = if t3.len() < MAX_NAME_CHARS {
        t3.len()
    } else {
        MAX_NAME_CHARS
    };
    let mut t: Vec<char> = Vec::new();
    let mut j: usize = 0;
    while j < n
        invariant
            j <= n <= t3@.len(),
            t@ == t3@.take(j as int),
        decreases n - j,
    {
        t.push(t3[j]);
        j = j + 1;
        assert(t@ == t3@.take(j as int));
    }
    assert(t@ == take_at_most(t3@, MAX_NAME_CHARS as nat));
    let stem_len = match find_first_from(t.as_slice(), 0, t.len(), '.') {
        Some(k) => k,
        None => t.len(),
    };
    proof {
        assert(t@.subrange(0, t@.len() as int) =~= t@);
        lemma_first_index_of(t@, '.');
        assert(name_stem(t@) == t@.take(stem_len as int));
    }
    let reserved = reserved_device_stem(&t, stem_len);
    let mut out = String::new();
    if reserved {
        push_char(&mut out, '_');
    }
    push_chars(&mut out, &t);
    assert(reserved ==> out@ == seq!['_'] + t@);
    out
}

} // verus!

verus! {

/// `total - 1`, or 0 when `total` is 0.
pub open spec fn last_byte(total: u64) -> u64 {
    if total == 0 {
        0
    } else {
        (total - 1) as u64
    }
}

/// The byte range that a `Range` header value asks for, out of `total` bytes:
/// `bytes=START-END`, `bytes=START-` or `bytes=-SUFFIX`, first range only.
pub open spec fn requested_range(header: Option<Seq<char>>, total: u64) -> Option<(u64, u64)> {
    match header {
        None => None,
        Some(raw) => {
            if !has_prefix(raw, seq!['b', 'y', 't', 'e', 's', '=']) {
                None
            } else {
                let part = trim_ws(before_first(raw.skip(6), ','));
                if part.len() > 0 && part[0] == '-' {
                    match parsed_u64(part.skip(1)) {
                        None => None,
                        Some(n) => if n == 0 || n > total {
                            Some((0u64, last_byte(total)))
                        } else {
                            Some(((total - n) as u64, (total - 1) as u64))
                        },
                    }
                } else {
                    let d = first_index_of(part, '-');
                    if d < 0 {
                        None
                    } else {
                        let end_text = part.skip(d + 1);
                        let end = if end_text.len() == 0 {
                            Some(last_byte(total))
                        } else {
                            parsed_u64(end_text)
                        };
                        match (parsed_u64(part.take(d)), end) {
                            (Some(start), Some(end)) => if start >= total {
                                None
                            } else if end < last_byte(total) {
                                Some((start, end))
                            } else {
                                Some((start, last_byte(total)))
                            },
                            _ => None,
                        }
                    }
                }
            }
        },
    }
}

/// Parses a `Range` header value (`bytes=START-END`, `bytes=START-`, `bytes=-SUFFIX`;
/// only the first range counts) against a body of `total` bytes.
pub fn parse_range_header(header_value: Option<&str>, total: u64) -> (r: Option<(u64, u64)>)
    ensures
        r == requested_range(opt_str_view(header_value), total),
{
    let raw = match header_value {
        Some(h) => h,
        None => return None,
    };
    let cs = chars_of(raw);
    let prefix = vec!['b', 'y', 't', 'e', 's', '='];
    assert(prefix@ == seq!['b', 'y', 't', 'e', 's', '=']);
    assert(cs@.skip(0) == cs@);
    if !prefix_at(&cs, 0, &prefix) {
        return None;
    }
    let stop = match find_first_from(&cs, 6, cs.len(), ',') {
        Some(i) => i,
        None => cs.len(),
    };
    let seg = sub_chars(&cs, 6, stop);
    proof {
        let rest = cs@.skip(6);
        assert(cs@.subrange(6, cs@.len() as int) == rest);
        lemma_first_index_of(rest, ',');
        assert(seg@ == before_first(rest, ','));
    }
    let part = trim_ws_chars(&seg);
    let last: u64 = if total == 0 {
        0
    } else {
        total - 1
    };
    if part.len() > 0 && part[0] == '-' {
        assert(part@.subrange(1, part@.len() as int) == part@.skip(1));
        let n = match parse_u64_chars(&part, 1, part.len()) {
            Some(n) => n,
            None => return None,
        };
        if n == 0 || n > total {
            return Some((0, last));
        }
        return Some((total - n, total - 1));
    }
    let d = match find_first_from(&part, 0, part.len(), '-') {
        Some(d) => d,
        None => {
            assert(part@.subrange(0, part@.len() as int) == part@);
            return None;
        },
    };
    assert(part@.subrange(0, part@.len() as int) == part@);
    assert(part@.subrange(0, d as int) == part@.take(d as int));
    assert(part@.subrange(d + 1, part@.len() as int) == part@.skip(d + 1));
    let start = match parse_u64_chars(&part, 0, d) {
        Some(s) => s,
        None => return None,
    };
    let end = if d + 1 == part.len() {
        last
    } else {
        match parse_u64_chars(&part, d + 1, part.len()) {
            Some(e) => e,
            None => return None,
        }
    };
    if start >= total {
        return None;
    }
    if end < last {
        Some((start, end))
    } else {
        Some((start, last))
    }
}

} // verus!

verus! {

/// Largest body the single-request multipart upload accepts: 100 MiB.
pub const MAX_UPLOAD_SIZE: usize = 100 * 1024 * 1024;

/// Largest text snippet, in UTF-8 bytes: 1 MiB.
pub const MAX_TEXT_BYTES: usize = 1024 * 1024;

/// Length of `s` in UTF-8 bytes (what `str::len` reports).
pub open spec fn utf8_len(s: Seq<char>) -> usize {
    encode_utf8(s).len() as usize
}

pub open spec fn bearer_prefix() -> Seq<char> {
    seq!['B', 'e', 'a', 'r', 'e', 'r', ' ']
}

pub open spec fn token_key() -> Seq<char> {
    seq!['t', 'o', 'k', 'e', 'n', '=']
}

/// The value of the first `token=` pair of a query string (pairs split at `&`),
/// still percent-encoded.
pub open spec fn token_param(q: Seq<char>) -> Option<Seq<char>>
    decreases q.len(),
{
    let i = first_index_of(q, '&');
    let pair = if i >= 0 {
        q.take(i)
    } else {
        q
    };
    if has_prefix(pair, token_key()) {
        Some(pair.skip(6))
    } else if 0 <= i < q.len() {
        token_param(q.skip(i + 1))
    } else {
        None
    }
}

/// What `urlencoding::decode` gives for `s`: percent-decoded text, or None when the
/// decoded bytes are not UTF-8.
pub uninterp spec fn url_decoded(s: Seq<char>) -> Option<Seq<char>>;

/// `urlencoding::decode`, an owned copy of the result; its outcome depends on `s` alone.
#[verifier::external_body]
fn url_decode(s: &str) -> (r: Option<String>)
    ensures
        match r {
            Some(t) => url_decoded(s@) == Some(t@),
            None => url_decoded(s@) is None,
        },
{
    urlencoding::decode(s).ok().map(|c| c.into_owned())
}

/// The token a request carries: `Authorization: Bearer <token>` (trimmed) first, else
/// the first `token=` query pair (percent-decoded; empty when that fails), else empty.
pub open spec fn request_token(authorization: Option<Seq<char>>, query: Option<Seq<char>>) -> Seq<
    char,
> {
    if authorization is Some && has_prefix(authorization->0, bearer_prefix()) {
        trim_ws(authorization->0.skip(7))
    } else if query is Some && token_param(query->0) is Some {
        match url_decoded(token_param(query->0)->0) {
            Some(d) => d,
            None => Seq::empty(),
        }
    } else {
        Seq::empty()
    }
}

fn token_in_query(q: &[char]) -> (r: Option<(usize, usize)>)
    ensures
        match r {
            Some((a, b)) => a <= b <= q@.len() && token_param(q@) == Some(
                q@.subrange(a as int, b as int),
            ),
            None => token_param(q@) is None,
        },
{
    let key = vec!['t', 'o', 'k', 'e', 'n', '='];
    assert(key@ == token_key());
    let mut start: usize = 0;
    assert(q@.skip(0) == q@);
    while start <= q.len()
        invariant
            start <= q@.len(),
            key@ == token_key(),
            token_param(q@) == token_param(q@.skip(start as int)),
        decreases q@.len() - start,
    {
        let ghost rest = q@.skip(start as int);
        assert(q@.subrange(start as int, q@.len() as int) == rest);
        proof {
            lemma_first_index_of(rest, '&');
        }
        let found = find_first_from(q, start, q.len(), '&');
        let end = match found {
            Some(i) => i,
            None => q.len(),
        };
        let ghost pair = q@.subrange(start as int, end as int);
        assert(pair == if first_index_of(rest, '&') >= 0 {
            rest.take(first_index_of(rest, '&'))
        } else {
            rest
        });
        let ok = if end - start >= 6 {
            let sub = sub_chars(q, start, end);
            assert(sub@ == pair);
            assert(sub@.skip(0) == sub@);
            prefix_at(&sub, 0, &key)
        } else {
            false
        };
        assert(ok == has_prefix(pair, token_key()));
        if ok {
            assert(pair.skip(6) == q@.subrange(start + 6, end as int));
            return Some((start + 6, end));
        }
        match found {
            Some(i) => {
                assert(rest.skip(i - start + 1) == q@.skip(i + 1));
                start = i + 1;
            },
            None => {
                return None;
            },
        }
    }
    None
}

/// Takes the token from the `Authorization` header value (`Bearer <token>`) or, failing
/// that, from the `token=` query parameter.
pub fn extract_token(authorization: Option<&str>, query: Option<&str>) -> (r: String)
    ensures
        r@ == request_token(opt_str_view(authorization), opt_str_view(query)),
{
    let prefix = vec!['B', 'e', 'a', 'r', 'e', 'r', ' '];
    assert(prefix@ == bearer_prefix());
    if let Some(h) = authorization {
        let cs = chars_of(h);
        assert(cs@.skip(0) == cs@);
        if prefix_at(&cs, 0, &prefix) {
            let rest = sub_chars(&cs, 7, cs.len());
            assert(rest@ == cs@.skip(7));
            let t = trim_ws_chars(&rest);
            return string_of(&t);
        }
    }
    if let Some(q) = query {
        let cs = chars_of(q);
        if let Some((a, b)) = token_in_query(&cs) {
            let raw = string_of(&sub_chars(&cs, a, b));
            match url_decode(raw.as_str()) {
                Some(d) => return d,
                None => return String::new(),
            }
        }
    }
    String::new()
}

/// Whether a request token grants access: it is not empty, and it is the owner token
/// or a token that verified against the current signing key (`jwt_valid`).
pub fn token_valid(token: &str, owner_token: &str, jwt_valid: bool) -> (r: bool)
    ensures
        r == (token@.len() > 0 && (token@ == owner_token@ || jwt_valid)),
{
    if token.is_empty() {
        return false;
    }
    if str_eq(token, owner_token) {
        return true;
    }
    jwt_valid
}

/// The owner check for deletions: the `Authorization` header must be exactly
/// `Bearer <owner_token>`, and the owner token must not be empty.
pub open spec fn owner_authorized(authorization: Option<Seq<char>>, owner_token: Seq<char>) -> bool {
    let got = if authorization is Some && has_prefix(authorization->0, bearer_prefix()) {
        authorization->0.skip(7)
    } else {
        Seq::empty()
    };
    got == owner_token && owner_token.len() > 0
}

/// HTTP 403.
pub const FORBIDDEN: u16 = 403;

/// HTTP 404.
pub const NOT_FOUND: u16 = 404;

/// Allows the request only for the owner; otherwise 403.
pub fn require_owner(authorization: Option<&str>, owner_token: &str) -> (r: Result<(), u16>)
    ensures
        r is Ok <==> owner_authorized(opt_str_view(authorization), owner_token@),
        r matches Err(code) ==> code == FORBIDDEN,
{
    let prefix = vec!['B', 'e', 'a', 'r', 'e', 'r', ' '];
    assert(prefix@ == bearer_prefix());
    let got = match authorization {
        Some(h) => {
            let cs = chars_of(h);
            assert(cs@.skip(0) == cs@);
            if prefix_at(&cs, 0, &prefix) {
                let rest = sub_chars(&cs, 7, cs.len());
                assert(rest@ == cs@.skip(7));
                string_of(&rest)
            } else {
                String::new()
            }
        },
        None => String::new(),
    };
    if str_eq(got.as_str(), owner_token) && !owner_token.is_empty() {
        Ok(())
    } else {
        Err(FORBIDDEN)
    }
}

/// A refused upload: the disk would drop below the configured reserve.
pub struct DiskShortage {
    pub free: u64,
    pub need: u64,
    pub min_free_mb: u64,
}

/// `min_free_mb` MiB in bytes, saturating.
pub open spec fn reserve_bytes(min_free_mb: u64) -> u64 {
    if min_free_mb * 1048576 > u64::MAX {
        u64::MAX
    } else {
        (min_free_mb * 1048576) as u64
    }
}

/// Whether an upload of `need` bytes must be refused with `free` bytes left on the disk.
pub open spec fn disk_short(need: u64, min_free_mb: u64, free: Option<u64>) -> bool {
    min_free_mb != 0 && free is Some && free->0 < if need + reserve_bytes(min_free_mb)
        > u64::MAX {
        u64::MAX
    } else {
        (need + reserve_bytes(min_free_mb)) as u64
    }
}

/// The soft disk limit: refuse when the free space is below `need` plus the reserve.
/// A reserve of 0 turns the limit off, and unknown free space (`None`) lets the upload
/// through.
pub fn check_disk_soft_limit(need: u64, min_free_mb: u64, free: Option<u64>) -> (r: Result<
    (),
    DiskShortage,
>)
    ensures
        r is Err <==> disk_short(need, min_free_mb, free),
        r matches Err(s) ==> s.free == free->0 && s.need == need && s.min_free_mb == min_free_mb,
{
    if min_free_mb == 0 {
        return Ok(());
    }
    let free = match free {
        Some(f) => f,
        None => return Ok(()),
    };
    let reserve = if min_free_mb > u64::MAX / 1048576 {
        u64::MAX
    } else {
        min_free_mb * 1048576
    };
    if free < need.saturating_add(reserve) {
        Err(DiskShortage { free, need, min_free_mb })
    } else {
        Ok(())
    }
}

/// Why an upload has nowhere to go.
pub enum TargetRefusal {
    /// No upload directory is configured.
    NoUploadDir,
    /// The disk would fall below its reserve.
    Disk(DiskShortage),
}

/// The checks before an upload is written, in order: an upload directory must be
/// configured, then the disk reserve must hold for `need` bytes (`free` is the free
/// space of the directory's disk, when known).
pub fn check_upload_target(upload_dir: &str, need: u64, min_free_mb: u64, free: Option<u64>) -> (r:
    Result<(), TargetRefusal>)
    ensures
        match r {
            Ok(()) => upload_dir@.len() > 0 && !disk_short(need, min_free_mb, free),
            Err(TargetRefusal::NoUploadDir) => upload_dir@.len() == 0,
            Err(TargetRefusal::Disk(s)) => upload_dir@.len() > 0 && disk_short(
                need,
                min_free_mb,
                free,
            ) && s.free == free->0 && s.need == need && s.min_free_mb == min_free_mb,
        },
{
    if upload_dir.unicode_len() == 0 {
        return Err(TargetRefusal::NoUploadDir);
    }
    match check_disk_soft_limit(need, min_free_mb, free) {
        Ok(()) => Ok(()),
        Err(s) => Err(TargetRefusal::Disk(s)),
    }
}

/// The running size of a multipart file after another piece of `piece` bytes, or None
/// once it exceeds [`MAX_UPLOAD_SIZE`].
pub fn grow_upload_total(total: u64, piece: usize) -> (r: Option<u64>)
    ensures
        match r {
            Some(t) => t == total + piece && t <= MAX_UPLOAD_SIZE,
            None => total + piece > MAX_UPLOAD_SIZE,
        },
{
    let t = total.saturating_add(piece as u64);
    if t > MAX_UPLOAD_SIZE as u64 {
        None
    } else {
        Some(t)
    }
}

} // verus!

verus! {

/// How a login attempt ends.
pub enum LoginOutcome {
    /// A visitor token; `password_checked` is false when no password is in force.
    Granted { token: String, password_checked: bool },
    /// A password is in force but no hash is available.
    PasswordUnset,
    /// The password does not verify.
    WrongPassword,
    /// Building the token failed (the message says why).
    TokenFailed(String),
}

/// What a login with `password` at time `now` answers: without a password in force,
/// the token of that time; otherwise nothing without a stored hash, a refusal when the
/// password does not verify, and the token of that time when it does. Only when a token
/// issued then would expire past `i64::MAX` is the answer `TokenFailed`.
pub open spec fn login_result(state: AppState, password: Seq<char>, now: i64, r: LoginOutcome) -> bool {
    &&& !password_required_for(state.config.password_enabled, state.config.password@) ==> match r {
        LoginOutcome::Granted { token, password_checked } => !password_checked && token_at(
            state.jwt_secret@,
            guest(),
            now,
        ) == Some(token@) && carries_claims(state.jwt_secret@, guest(), token@, now),
        LoginOutcome::TokenFailed(_) => now > i64::MAX - TOKEN_TTL_SECS,
        _ => false,
    }
    &&& password_required_for(state.config.password_enabled, state.config.password@) ==> match r {
        LoginOutcome::Granted { token, password_checked } => password_checked
            && state.password_hash is Some && password_matches(password, state.password_hash->0@)
            && token_at(state.jwt_secret@, guest(), now) == Some(token@) && carries_claims(
            state.jwt_secret@,
            guest(),
            token@,
            now,
        ),
        LoginOutcome::PasswordUnset => state.password_hash is None,
        LoginOutcome::WrongPassword => state.password_hash is Some && !password_matches(
            password,
            state.password_hash->0@,
        ),
        LoginOutcome::TokenFailed(_) => state.password_hash is Some && password_matches(
            password,
            state.password_hash->0@,
        ) && now > i64::MAX - TOKEN_TTL_SECS,
    }
}

/// Login at time `now`: without a password in force every visitor gets a token;
/// otherwise the password must verify against the stored hash.
pub fn login_at(state: &AppState, password: &str, now: i64) -> (r: LoginOutcome)
    requires
        state.wf(),
    ensures
        login_result(*state, password@, now, r),
        // the configured password is never refused while the settings are in force
        !state.auth_stale() && password@ == state.config.password@ ==> !(r is WrongPassword),
        // and it gets the token of that time (within Argon2's length limit)
        !state.auth_stale() && password@ == state.config.password@ && encode_utf8(password@).len()
            <= u32::MAX ==> (r is Granted || r is TokenFailed) && (r is Granted <==> now
            <= i64::MAX - TOKEN_TTL_SECS),
{
    let g = guest_subject();
    if !state.password_required() {
        return match issue_token_checked(state.jwt_secret.as_str(), g.as_str(), now) {
            Ok(token) => LoginOutcome::Granted { token, password_checked: false },
            Err(e) => LoginOutcome::TokenFailed(e),
        };
    }
    let hash = match &state.password_hash {
        Some(h) => h,
        None => return LoginOutcome::PasswordUnset,
    };
    if !verify_password(password, hash.as_str()) {
        return LoginOutcome::WrongPassword;
    }
    match issue_token_checked(state.jwt_secret.as_str(), g.as_str(), now) {
        Ok(token) => LoginOutcome::Granted { token, password_checked: true },
        Err(e) => LoginOutcome::TokenFailed(e),
    }
}

/// The subject of visitor tokens.
pub open spec fn guest() -> Seq<char> {
    seq!['g', 'u', 'e', 's', 't']
}

fn guest_subject() -> (r: String)
    ensures
        r@ == guest(),
{
    let mut s = String::new();
    push_char(&mut s, 'g');
    push_char(&mut s, 'u');
    push_char(&mut s, 'e');
    push_char(&mut s, 's');
    push_char(&mut s, 't');
    s
}

/// Login now: the answer [`login_at`] gives at the current time.
pub fn login(state: &AppState, password: &str) -> (r: LoginOutcome)
    requires
        state.wf(),
    ensures
        exists|now: i64| #[trigger] login_result(*state, password@, now, r),
        r is Granted ==> (password_required_for(
            state.config.password_enabled,
            state.config.password@,
        ) ==> state.password_hash is Some && password_matches(
            password@,
            state.password_hash->0@,
        )),
        !state.auth_stale() && password@ == state.config.password@ ==> !(r is WrongPassword),
        !state.auth_stale() && password@ == state.config.password@ && encode_utf8(password@).len()
            <= u32::MAX ==> r is Granted || r is TokenFailed,
{
    let now = now_secs();
    let r = login_at(state, password, now);
    assert(login_result(*state, password@, now, r));
    r
}

/// Why a text was refused.
pub enum TextRejection {
    Empty,
    TooLarge,
}

/// Accepts a text of 1 .. [`MAX_TEXT_BYTES`] UTF-8 bytes.
pub fn check_text(content: &str) -> (r: Result<(), TextRejection>)
    ensures
        match r {
            Ok(()) => content@.len() > 0 && utf8_len(content@) <= MAX_TEXT_BYTES,
            Err(TextRejection::Empty) => content@.len() == 0,
            Err(TextRejection::TooLarge) => content@.len() > 0 && utf8_len(content@)
                > MAX_TEXT_BYTES,
        },
{
    if content.is_empty() {
        return Err(TextRejection::Empty);
    }
    if content.len() > MAX_TEXT_BYTES {
        return Err(TextRejection::TooLarge);
    }
    Ok(())
}

/// Shares a text from `ip`: checked, given a fresh 12-character id, stamped with the
/// current time and added to the registry.
pub fn post_text(state: &mut AppState, content: String, ip: String) -> (r: Result<
    Arc<TextItem>,
    TextRejection,
>)
    requires
        old(state).wf(),
    ensures
        final(state).wf(),
        match r {
            Ok(t) => {
                &&& content@.len() > 0 && utf8_len(content@) <= MAX_TEXT_BYTES
                &&& t.content == content
                &&& t.uploader_ip == ip
                &&& is_id_of_len(t.id@, TEXT_ID_LEN as nat)
                &&& final(state).registry.texts() == upsert(
                    old(state).registry.texts(),
                    t.id@,
                    *t,
                )
                &&& final(state).registry.files() == old(state).registry.files()
            },
            Err(TextRejection::Empty) => content@.len() == 0 && *final(state) == *old(state),
            Err(TextRejection::TooLarge) => content@.len() > 0 && utf8_len(content@)
                > MAX_TEXT_BYTES && *final(state) == *old(state),
        },
        final(state).config == old(state).config,
        final(state).uploads == old(state).uploads,
        final(state).owner_token == old(state).owner_token,
{
    match check_text(content.as_str()) {
        Ok(()) => {},
        Err(e) => return Err(e),
    }
    let item = TextItem {
        id: new_id(TEXT_ID_LEN),
        content,
        uploader_ip: ip,
        created_at: now_secs(),
    };
    Ok(state.registry.add_text(item))
}

/// Deletes a file record for the owner (the file on disk stays): 403 for anyone else,
/// 404 for an unknown id.
pub fn delete_file(state: &mut AppState, authorization: Option<&str>, id: &str) -> (r: Result<
    Arc<FileItem>,
    u16,
>)
    requires
        old(state).wf(),
    ensures
        final(state).wf(),
        final(state).config == old(state).config,
        final(state).uploads == old(state).uploads,
        final(state).registry.texts() == old(state).registry.texts(),
        match r {
            Ok(f) => owner_authorized(opt_str_view(authorization), old(state).owner_token@)
                && lookup(old(state).registry.files(), id@) == Some(*f)
                && final(state).registry.files() == remove_entry(
                old(state).registry.files(),
                id@,
            ),
            Err(code) => final(state).registry.files() == old(state).registry.files() && if !owner_authorized(
                opt_str_view(authorization),
                old(state).owner_token@,
            ) {
                code == FORBIDDEN
            } else {
                code == NOT_FOUND && lookup(old(state).registry.files(), id@) is None
            },
        },
{
    match require_owner(authorization, state.owner_token.as_str()) {
        Ok(()) => {},
        Err(code) => return Err(code),
    }
    match state.registry.remove_file(id) {
        Some(f) => Ok(f),
        None => Err(NOT_FOUND),
    }
}

/// Deletes a text for the owner: 403 for anyone else, 404 for an unknown id.
pub fn delete_text(state: &mut AppState, authorization: Option<&str>, id: &str) -> (r: Result<
    Arc<TextItem>,
    u16,
>)
    requires
        old(state).wf(),
    ensures
        final(state).wf(),
        final(state).config == old(state).config,
        final(state).uploads == old(state).uploads,
        final(state).registry.files() == old(state).registry.files(),
        match r {
            Ok(t) => owner_authorized(opt_str_view(authorization), old(state).owner_token@)
                && lookup(old(state).registry.texts(), id@) == Some(*t)
                && final(state).registry.texts() == remove_entry(
                old(state).registry.texts(),
                id@,
            ),
            Err(code) => final(state).registry.texts() == old(state).registry.texts() && if !owner_authorized(
                opt_str_view(authorization),
                old(state).owner_token@,
            ) {
                code == FORBIDDEN
            } else {
                code == NOT_FOUND && lookup(old(state).registry.texts(), id@) is None
            },
        },
{
    match require_owner(authorization, state.owner_token.as_str()) {
        Ok(()) => {},
        Err(code) => return Err(code),
    }
    match state.registry.remove_text(id) {
        Some(t) => Ok(t),
        None => Err(NOT_FOUND),
    }
}

} // verus!

verus! {

/// What the server found for a file the client names: where the name came from
/// (`name`) and the announced size.
pub enum InitRejection {
    /// The name is blank.
    EmptyName,
    /// The size is 0.
    ZeroSize,
}

/// The parameters of a new chunked upload.
pub struct UploadPlan {
    pub safe_name: String,
    pub size: u64,
    pub mime: String,
    pub chunk_size: u64,
    pub chunk_count: u32,
    /// The resume key (`safe_name::size::uploader_ip`).
    pub signature: String,
}

/// The MIME type `mime_guess` derives from the extension of `path`
/// (`application/octet-stream` when it knows none).
pub uninterp spec fn guessed_mime(path: Seq<char>) -> Seq<char>;

/// `mime_guess::from_path(path).first_or_octet_stream()` as a string; it depends on the
/// path alone.
#[verifier::external_body]
pub(crate) fn guess_mime(path: &str) -> (r: String)
    ensures
        r@ == guessed_mime(path@),
{
    mime_guess::from_path(path).first_or_octet_stream().to_string()
}

/// Plans a chunked upload of `size` bytes named `name` from `uploader_ip`: the name is
/// cleaned, the chunk size clamped, the chunks counted, and the MIME type guessed from
/// the cleaned name unless the client gave one.
pub fn plan_upload(
    name: &str,
    size: u64,
    mime: Option<String>,
    chunk_size: Option<u64>,
    uploader_ip: &str,
) -> (r: Result<UploadPlan, InitRejection>)
    requires
        trim_ws(name@).len() > 0 && size > 0 ==> size + effective_chunk_size(chunk_size) - 1
            <= u64::MAX,
    ensures
        match r {
            Ok(p) => {
                &&& trim_ws(name@).len() > 0 && size > 0
                &&& p.safe_name@ == sanitized_name(name@)
                &&& p.size == size
                &&& p.chunk_size == effective_chunk_size(chunk_size)
                &&& p.chunk_count == chunk_count_for(size, p.chunk_size)
                &&& p.signature@ == session_signature(p.safe_name@, size, uploader_ip@)
                &&& p.mime@ == match mime {
                    Some(m) => m@,
                    None => guessed_mime(p.safe_name@),
                }
            },
            Err(InitRejection::EmptyName) => trim_ws(name@).len() == 0,
            Err(InitRejection::ZeroSize) => trim_ws(name@).len() > 0 && size == 0,
        },
{
    let cs = chars_of(name);
    if trim_ws_chars(&cs).len() == 0 {
        return Err(InitRejection::EmptyName);
    }
    if size == 0 {
        return Err(InitRejection::ZeroSize);
    }
    let chunk = chunk_size_for(chunk_size);
    let count = count_chunks(size, chunk);
    let safe_name = sanitize_filename(name);
    let mime = match mime {
        Some(m) => m,
        None => guess_mime(safe_name.as_str()),
    };
    let mut signature = String::new();
    push_str(&mut signature, safe_name.as_str());
    push_char(&mut signature, ':');
    push_char(&mut signature, ':');
    push_decimal(&mut signature, size);
    push_char(&mut signature, ':');
    push_char(&mut signature, ':');
    push_str(&mut signature, uploader_ip);
    Ok(UploadPlan { safe_name, size, mime, chunk_size: chunk, chunk_count: count, signature })
}

/// Whether an existing session with the same signature can be resumed: same chunk size
/// and count, and its partial file still on disk.
pub fn can_resume(existing: &UploadSession, plan: &UploadPlan, partial_exists: bool) -> (r: bool)
    ensures
        r == (existing.chunk_size == plan.chunk_size && existing.chunk_count == plan.chunk_count
            && partial_exists),
{
    existing.chunk_size == plan.chunk_size && existing.chunk_count == plan.chunk_count
        && partial_exists
}

/// What init does with the session found under the plan's signature.
pub enum ExistingSession {
    /// It is resumed as it stands.
    Resume(UploadSession),
    /// It could not be resumed and was dropped (given back so that its partial file can
    /// be deleted; None when it was gone already).
    Dropped(Option<UploadSession>),
}

/// Settles the session `existing` found under the plan's signature: resumed, with the
/// manager unchanged, when [`can_resume`] holds; otherwise removed from the manager.
pub fn settle_existing(
    uploads: &mut UploadManager,
    existing: UploadSession,
    plan: &UploadPlan,
    partial_exists: bool,
) -> (r: ExistingSession)
    requires
        old(uploads).wf(),
    ensures
        final(uploads).wf(),
        match r {
            ExistingSession::Resume(s) => {
                &&& existing.chunk_size == plan.chunk_size
                &&& existing.chunk_count == plan.chunk_count
                &&& partial_exists
                &&& s@ == existing@
                &&& *final(uploads) == *old(uploads)
            },
            ExistingSession::Dropped(o) => {
                &&& !(existing.chunk_size == plan.chunk_size && existing.chunk_count
                    == plan.chunk_count && partial_exists)
                &&& match o {
                    Some(old_s) => {
                        &&& old(uploads).sessions().contains_key(existing.id@)
                        &&& old_s@ == old(uploads).sessions()[existing.id@]
                        &&& final(uploads).sessions() == old(uploads).sessions().remove(
                            existing.id@,
                        )
                        &&& final(uploads).signatures() == old(uploads).signatures().remove(
                            old_s@.signature(),
                        )
                    },
                    None => !old(uploads).sessions().contains_key(existing.id@)
                        && *final(uploads) == *old(uploads),
                }
            },
        },
{
    if can_resume(&existing, plan, partial_exists) {
        ExistingSession::Resume(existing)
    } else {
        ExistingSession::Dropped(uploads.remove(existing.id.as_str()))
    }
}

/// Starts the session for `plan` (its partial file already preallocated) and gives back
/// a copy of it.
pub fn open_session(
    uploads: &mut UploadManager,
    plan: UploadPlan,
    upload_id: String,
    file_id: String,
    uploader_ip: String,
    partial_path: String,
    final_path: String,
    created_at: i64,
) -> (r: UploadSession)
    requires
        old(uploads).wf(),
    ensures
        final(uploads).wf(),
        r@ == (UploadSessionView {
            id: upload_id@,
            file_id: file_id@,
            name: plan.safe_name@,
            size: plan.size,
            mime: plan.mime@,
            chunk_size: plan.chunk_size,
            chunk_count: plan.chunk_count,
            uploader_ip: uploader_ip@,
            created_at,
            uploaded: Seq::empty(),
            partial_path: partial_path@,
            final_path: final_path@,
        }),
        final(uploads).sessions() == old(uploads).sessions().insert(upload_id@, r@),
        final(uploads).signatures() == old(uploads).signatures().insert(
            r@.signature(),
            upload_id@,
        ),
{
    let session = UploadSession {
        id: upload_id,
        file_id,
        name: plan.safe_name,
        size: plan.size,
        mime: plan.mime,
        chunk_size: plan.chunk_size,
        chunk_count: plan.chunk_count,
        uploader_ip,
        created_at,
        uploaded: Vec::new(),
        partial_path,
        final_path,
    };
    let copy = session.duplicate();
    uploads.insert(session);
    copy
}

/// The file record a finished upload becomes.
pub open spec fn finished_item(s: UploadSessionView, item: FileItem) -> bool {
    &&& item.id@ == s.file_id
    &&& item.name@ == s.name
    &&& item.size == s.size
    &&& item.mime@ == s.mime
    &&& item.uploader_ip@ == s.uploader_ip
    &&& item.path@ == s.final_path
}

/// After the partial file was renamed into place: the session ends and its file is
/// shared. None when the session is gone.
pub fn finish_upload(state: &mut AppState, id: &str) -> (r: Option<Arc<FileItem>>)
    requires
        old(state).wf(),
    ensures
        final(state).wf(),
        final(state).config == old(state).config,
        final(state).registry.texts() == old(state).registry.texts(),
        match r {
            Some(f) => {
                &&& old(state).uploads.sessions().contains_key(id@)
                &&& finished_item(old(state).uploads.sessions()[id@], *f)
                &&& final(state).uploads.sessions() == old(state).uploads.sessions().remove(id@)
                &&& final(state).uploads.signatures() == old(state).uploads.signatures().remove(
                    old(state).uploads.sessions()[id@].signature(),
                )
                &&& final(state).registry.files() == upsert(
                    old(state).registry.files(),
                    f.id@,
                    *f,
                )
            },
            None => !old(state).uploads.sessions().contains_key(id@) && *final(state) == *old(
                state,
            ),
        },
{
    let s = match state.uploads.remove(id) {
        Some(s) => s,
        None => return None,
    };
    let item = FileItem {
        id: s.file_id,
        name: s.name,
        size: s.size,
        mime: s.mime,
        uploader_ip: s.uploader_ip,
        created_at: now_secs(),
        path: s.final_path,
    };
    Some(state.registry.add_file(item))
}

/// Shares a file that was written to `path` (under a fresh file id from
/// [`new_file_id`]) by the single-request upload or by the host.
pub fn share_file(
    state: &mut AppState,
    id: String,
    name: String,
    size: u64,
    mime: String,
    uploader_ip: String,
    path: String,
) -> (r: Arc<FileItem>)
    requires
        old(state).wf(),
    ensures
        final(state).wf(),
        final(state).config == old(state).config,
        final(state).uploads == old(state).uploads,
        final(state).registry.texts() == old(state).registry.texts(),
        r.id == id && r.name == name && r.size == size && r.mime == mime && r.uploader_ip
            == uploader_ip && r.path == path,
        final(state).registry.files() == upsert(old(state).registry.files(), id@, *r),
{
    let item = FileItem { id, name, size, mime, uploader_ip, created_at: now_secs(), path };
    state.registry.add_file(item)
}

/// How a download is served.
pub enum DownloadPlan {
    /// The whole file.
    Full,
    /// Bytes `start ..= end` (`length` of them), answered with 206.
    Partial { start: u64, end: u64, length: u64 },
}

/// Chooses between a ranged and a full answer: a parsed range is served when
/// `start <= end < total`; anything else gets the whole file.
pub fn plan_download(range_header: Option<&str>, total: u64) -> (r: DownloadPlan)
    ensures
        match requested_range(opt_str_view(range_header), total) {
            Some((s, e)) => if s <= e && e < total {
                r == (DownloadPlan::Partial { start: s, end: e, length: (e - s + 1) as u64 })
            } else {
                r == DownloadPlan::Full
            },
            None => r == DownloadPlan::Full,
        },
{
    match parse_range_header(range_header, total) {
        Some((start, end)) => {
            if start <= end && end < total {
                DownloadPlan::Partial { start, end, length: end - start + 1 }
            } else {
                DownloadPlan::Full
            }
        },
        None => DownloadPlan::Full,
    }
}

/// The `Content-Range` value `bytes START-END/TOTAL`.
pub fn content_range(start: u64, end: u64, total: u64) -> (r: String)
    ensures
        r@ == seq!['b', 'y', 't', 'e', 's', ' '] + decimal(start as nat) + seq!['-'] + decimal(
            end as nat,
        ) + seq!['/'] + decimal(total as nat),
{
    let mut s = String::new();
    push_char(&mut s, 'b');
    push_char(&mut s, 'y');
    push_char(&mut s, 't');
    push_char(&mut s, 'e');
    push_char(&mut s, 's');
    push_char(&mut s, ' ');
    push_decimal(&mut s, start);
    push_char(&mut s, '-');
    push_decimal(&mut s, end);
    push_char(&mut s, '/');
    push_decimal(&mut s, total);
    s
}

/// Bytes that `urlencoding::encode` leaves as they are.
pub open spec fn is_unreserved_byte(b: u8) -> bool {
    (48 <= b && b <= 57) || (65 <= b && b <= 90) || (97 <= b && b <= 122) || b == 45 || b == 46
        || b == 95 || b == 126
}

/// The upper-case hexadecimal digit for `d < 16`.
pub open spec fn upper_hex_char(d: nat) -> char {
    if d < 10 {
        decimal(d)[0]
    } else if d == 10 {
        'A'
    } else if d == 11 {
        'B'
    } else if d == 12 {
        'C'
    } else if d == 13 {
        'D'
    } else if d == 14 {
        'E'
    } else {
        'F'
    }
}

/// Percent-encoding of bytes: unreserved bytes stay, every other byte becomes `%XX`.
pub open spec fn percent_encoded(b: Seq<u8>) -> Seq<char>
    decreases b.len(),
{
    if b.len() == 0 {
        Seq::empty()
    } else {
        percent_encoded(b.drop_last()) + if is_unreserved_byte(b.last()) {
            seq![b.last() as char]
        } else {
            seq!['%', upper_hex_char((b.last() / 16) as nat), upper_hex_char((b.last() % 16) as nat)]
        }
    }
}

/// `urlencoding::encode`: every UTF-8 byte of `s` except ASCII letters, digits and
/// `-._~` becomes `%XX` (upper-case hex).
#[verifier::external_body]
fn url_encode(s: &str) -> (r: String)
    ensures
        r@ == percent_encoded(encode_utf8(s@)),
{
    urlencoding::encode(s).into_owned()
}

/// `s` without its `"` characters.
pub open spec fn without_quotes(s: Seq<char>) -> Seq<char>
    decreases s.len(),
{
    if s.len() == 0 {
        Seq::empty()
    } else if s.last() == '"' {
        without_quotes(s.drop_last())
    } else {
        without_quotes(s.drop_last()).push(s.last())
    }
}

/// The `Content-Disposition` value of a download of `name`:
/// `attachment; filename="NAME"; filename*=UTF-8''ENCODED`, the plain name without `"`.
pub fn content_disposition(name: &str) -> (r: String)
    ensures
        r@ == seq!['a', 't', 't', 'a', 'c', 'h', 'm', 'e', 'n', 't', ';', ' ', 'f', 'i', 'l', 'e', 'n', 'a', 'm', 'e', '=', '"']
            + without_quotes(name@) + seq!['"', ';', ' ', 'f', 'i', 'l', 'e', 'n', 'a', 'm', 'e', '*', '=', 'U', 'T', 'F', '-', '8', '\'', '\'']
            + percent_encoded(encode_utf8(name@)),
{
    let mut s = String::new();
    let head = vec!['a', 't', 't', 'a', 'c', 'h', 'm', 'e', 'n', 't', ';', ' ', 'f', 'i', 'l', 'e', 'n', 'a', 'm', 'e', '=', '"'];
    push_chars(&mut s, &head);
    let cs = chars_of(name);
    let mut i: usize = 0;
    let ghost base = s@;
    while i < cs.len()
        invariant
            i <= cs@.len(),
            cs@ == name@,
            s@ == base + without_quotes(cs@.take(i as int)),
        decreases cs@.len() - i,
    {
        if cs[i] != '"' {
            push_char(&mut s, cs[i]);
        }
        i = i + 1;
        assert(cs@.take(i as int).drop_last() == cs@.take(i - 1));
    }
    assert(cs@.take(cs@.len() as int) == cs@);
    let mid = vec!['"', ';', ' ', 'f', 'i', 'l', 'e', 'n', 'a', 'm', 'e', '*', '=', 'U', 'T', 'F', '-', '8', '\'', '\''];
    push_chars(&mut s, &mid);
    let enc = url_encode(name);
    push_str(&mut s, enc.as_str());
    s
}

} // verus!

verus! {

/// What the push side of a live-sync connection has to react to.
pub enum SyncInput {
    /// A broadcast event, serialised (None when serialising failed).
    Event(Option<String>),
    /// The connection fell behind and missed events.
    Lagged,
    /// The event channel closed.
    Closed,
    /// The heartbeat timer fired.
    PingTick,
    /// The authentication timer fired; the current epoch is attached.
    AuthTick(u64),
}

/// What the push side does next.
pub enum SyncAction {
    /// Send this text frame.
    Send(String),
    /// Ask the client to reload everything (`{"type":"resync"}`).
    SendResync,
    /// Send a ping.
    SendPing,
    /// Tell the client its login is void (`{"type":"authInvalid"}`) and close.
    SendAuthInvalidAndClose,
    /// Close the connection.
    Close,
    /// Nothing to do.
    Idle,
}

/// How the push side of a connection opened at epoch `epoch_at_connect` reacts.
pub open spec fn sync_reaction(epoch_at_connect: u64, input: SyncInput) -> SyncAction {
    match input {
        SyncInput::Event(Some(text)) => SyncAction::Send(text),
        SyncInput::Event(None) => SyncAction::Idle,
        SyncInput::Lagged => SyncAction::SendResync,
        SyncInput::Closed => SyncAction::Close,
        SyncInput::PingTick => SyncAction::SendPing,
        SyncInput::AuthTick(now) => if now != epoch_at_connect {
            SyncAction::SendAuthInvalidAndClose
        } else {
            SyncAction::Idle
        },
    }
}

/// One step of the live-sync push loop of a connection that saw epoch `epoch_at_connect`
/// when it was opened.
pub fn sync_step(epoch_at_connect: u64, input: SyncInput) -> (r: SyncAction)
    ensures
        r == sync_reaction(epoch_at_connect, input),
{
    match input {
        SyncInput::Event(Some(text)) => SyncAction::Send(text),
        SyncInput::Event(None) => SyncAction::Idle,
        SyncInput::Lagged => SyncAction::SendResync,
        SyncInput::Closed => SyncAction::Close,
        SyncInput::PingTick => SyncAction::SendPing,
        SyncInput::AuthTick(now) => if now != epoch_at_connect {
            SyncAction::SendAuthInvalidAndClose
        } else {
            SyncAction::Idle
        },
    }
}

} // verus!

verus! {

/// The name given to a multipart file that came without one: `unnamed-` and six random
/// id characters.
pub fn unnamed_upload_name() -> (r: String)
    ensures
        r@.len() == 14,
        r@.take(8) == "unnamed-"@,
        is_id_of_len(r@.skip(8), 6),
{
    let mut s = String::new();
    push_str(&mut s, "unnamed-");
    proof {
        reveal_strlit("unnamed-");
    }
    let tail = new_id(6);
    push_str(&mut s, tail.as_str());
    assert(s@.take(8) =~= "unnamed-"@);
    assert(s@.skip(8) =~= tail@);
    s
}

/// The placeholder file of an upload in progress: `<name>.partial`.
pub fn partial_name(name: &str) -> (r: String)
    ensures
        r@ == name@ + ".partial"@,
{
    let mut s = String::new();
    push_str(&mut s, name);
    push_str(&mut s, ".partial");
    s
}

} // verus!
