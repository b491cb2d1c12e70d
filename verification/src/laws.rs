use crate::server::routes::{
    is_forbidden_name_char, is_reserved_device_name, name_stem, unusable_name, replace_forbidden, cleaned_name, sanitized_name,
    MAX_NAME_CHARS,
};
use crate::text::{
    all_chars, ascii_upper_seq, first_index_of, lemma_first_index_of, lemma_trim_char_keeps, lemma_trim_ws_keeps, take_at_most, trim_char, trim_ws,
};
use crate::commands::{is_upload_dir_name, listed, orphans, size_total, sizes_sum, OrphanCandidate};
use crate::server::files::{lemma_entry_position, lookup, remove_entry, unique_keys, upsert};
use crate::server::routes::{
    guest, last_byte, login_result, requested_range, sync_reaction, LoginOutcome, SyncAction, SyncInput,
};
use crate::server::auth::{
    issued_at, jwt_claims, token_accepted_at, token_at, TOKEN_LEEWAY_SECS, TOKEN_TTL_SECS,
};
use vstd::utf8::encode_utf8;
use crate::server::state::{is_id_of_len, password_required_for, AppState, FILE_ID_LEN};
use crate::server::upload::{
    after_receipts, chunk_count_for, effective_chunk_size, law_resume_across_receipts, session_signature,
    UploadManager, UploadSessionView,
};
use vstd::prelude::*;

verus! {

/// A stored file name never holds a path separator or another forbidden character, is
/// never empty, `.` or `..` (so it names an entry inside its directory), and has at most
/// 201 characters (200 kept, plus `_` before a device name).
pub proof fn law_sanitized_name_is_safe(name: Seq<char>)
    ensures
        forall|i: int|
            0 <= i < sanitized_name(name).len() ==> !is_forbidden_name_char(
                #[trigger] sanitized_name(name)[i],
            ),
        sanitized_name(name).len() > 0,
        sanitized_name(name) != seq!['.'],
        sanitized_name(name) != seq!['.', '.'],
        sanitized_name(name).len() <= MAX_NAME_CHARS + 1,
{
    let p = |c: char| !is_forbidden_name_char(c);
    let m = replace_forbidden(name);
    assert(all_chars(m, p));
    lemma_trim_ws_keeps(m, p);
    lemma_trim_char_keeps(trim_ws(m), '.', p);
    lemma_trim_ws_keeps(trim_char(trim_ws(m), '.'), p);
    let c = cleaned_name(name);
    assert(all_chars(c, p));
    let r = sanitized_name(name);
    if unusable_name(c) {
        assert(r == seq!['f', 'i', 'l', 'e']);
        assert(r[0] == 'f');
        assert forall|i: int| 0 <= i < r.len() implies !is_forbidden_name_char(#[trigger] r[i]) by {
            assert(r[i] == 'f' || r[i] == 'i' || r[i] == 'l' || r[i] == 'e');
        }
    } else {
        let t = take_at_most(c, MAX_NAME_CHARS as nat);
        assert(all_chars(t, p)) by {
            assert forall|i: int| 0 <= i < t.len() implies p(#[trigger] t[i]) by {
                assert(t[i] == c[i]);
            }
        }
        if r.len() == t.len() + 1 {
            assert(r[0] == '_');
        } else if c.len() <= MAX_NAME_CHARS {
            assert(t =~= c);
        }
        assert forall|i: int| 0 <= i < r.len() implies !is_forbidden_name_char(#[trigger] r[i]) by {
            if r.len() == t.len() + 1 {
                if i > 0 {
                    assert(r[i] == t[i - 1]);
                } else {
                    assert(r[i] == '_');
                }
            } else {
                assert(r[i] == t[i]);
            }
        }
    }
}

} // verus!

verus! {

/// A parsed byte range never ends past the last byte, and (for a non-empty body)
/// starts inside it.
pub proof fn law_range_within_body(header: Option<Seq<char>>, total: u64)
    ensures
        requested_range(header, total) matches Some((s, e)) ==> e <= last_byte(total) && (total
            > 0 ==> s < total),
{
}

/// The chunk layout that init plans is coherent whenever the chunk count fits the
/// session's `u32`.
pub proof fn law_planned_layout_consistent(v: UploadSessionView)
    requires
        v.size > 0,
        v.chunk_size > 0,
        v.size + v.chunk_size - 1 <= u64::MAX,
        (v.size + v.chunk_size - 1) / (v.chunk_size as int) <= u32::MAX,
        v.chunk_count == chunk_count_for(v.size, v.chunk_size),
    ensures
        v.consistent(),
{
    let x = v.size + v.chunk_size - 1;
    let d = v.chunk_size as int;
    let q = x / d;
    vstd::arithmetic::div_mod::lemma_fundamental_div_mod(x, d);
    vstd::arithmetic::div_mod::lemma_mod_bound(x, d);
    assert(v.chunk_count == q);
    assert(q > 0) by (nonlinear_arith)
        requires
            x == d * q + x % d,
            x % d < d,
            x >= d,
            d > 0,
    ;
    assert(d * (q - 1) < v.size && v.size <= d * q) by (nonlinear_arith)
        requires
            x == d * q + x % d,
            0 <= x % d < d,
            x == v.size + d - 1,
    ;
}

/// After a session is registered, its signature leads back to it: resuming the same
/// file from the same address finds the session.
pub proof fn law_registered_session_resumes(
    before: UploadManager,
    after: UploadManager,
    s: UploadSessionView,
)
    requires
        after.sessions() == before.sessions().insert(s.id, s),
        after.signatures() == before.signatures().insert(s.signature(), s.id),
    ensures
        after.signatures().contains_key(s.signature()),
        after.sessions().contains_key(after.signatures()[s.signature()]),
        after.sessions()[after.signatures()[s.signature()]] == s,
{
}

/// Asking again to upload the same file from the same address with the same chunk size,
/// after any run of chunk receipts: the new plan's signature leads to the session, whose
/// layout matches the new plan, so init resumes it (while its partial file is there) with
/// its received list as it stands.
pub proof fn law_reinit_resumes(
    m: Map<Seq<char>, UploadSessionView>,
    sigs: Map<Seq<char>, Seq<char>>,
    s: UploadSessionView,
    marks: Seq<(Seq<char>, u32)>,
    name: Seq<char>,
    size: u64,
    chunk: Option<u64>,
    ip: Seq<char>,
)
    requires
        m.contains_key(s.id),
        m[s.id] == s,
        sigs.contains_key(s.signature()),
        sigs[s.signature()] == s.id,
        s.name == sanitized_name(name),
        s.size == size,
        s.uploader_ip == ip,
        s.chunk_size == effective_chunk_size(chunk),
        s.chunk_count == chunk_count_for(size, effective_chunk_size(chunk)),
    ensures
        ({
            let sig = session_signature(sanitized_name(name), size, ip);
            let a = after_receipts(m, marks);
            &&& sigs.contains_key(sig)
            &&& a.contains_key(sigs[sig])
            &&& a[sigs[sig]].id == s.id
            &&& a[sigs[sig]].chunk_size == effective_chunk_size(chunk)
            &&& a[sigs[sig]].chunk_count == chunk_count_for(size, effective_chunk_size(chunk))
            &&& a[sigs[sig]].uploaded == a[s.id].uploaded
        }),
{
    law_resume_across_receipts(m, sigs, s, marks);
}

/// Sharing an item under a fresh id and then deleting it leaves the list as it was.
pub proof fn law_add_then_remove_restores<V>(e: Seq<(Seq<char>, V)>, k: Seq<char>, v: V)
    requires
        unique_keys(e),
        lookup(e, k) is None,
    ensures
        remove_entry(upsert(e, k, v), k) == e,
        upsert(e, k, v) == e.push((k, v)),
{
    lemma_entry_position(e, k);
    let u = upsert(e, k, v);
    assert(u == e.push((k, v)));
    lemma_entry_position(u, k);
    assert(u.remove(e.len() as int) =~= e);
}

/// Once the signing key was replaced, every connection opened before is told its
/// login is void at its next authentication check.
pub proof fn law_rotation_ends_old_connections(before: AppState, after: AppState)
    requires
        after.epoch() != before.epoch(),
    ensures
        sync_reaction(before.epoch(), SyncInput::AuthTick(after.epoch()))
            == SyncAction::SendAuthInvalidAndClose,
{
}

/// Password protection works: while a password (within Argon2's length limit) is in
/// force and the settings are applied, logging in with exactly that password is never
/// refused: it gets the token of its time, for any time whose token expiry fits an `i64`.
pub proof fn law_configured_password_logs_in(state: AppState, now: i64, r: LoginOutcome)
    requires
        state.wf(),
        !state.auth_stale(),
        password_required_for(state.config.password_enabled, state.config.password@),
        encode_utf8(state.config.password@).len() <= u32::MAX,
        login_result(state, state.config.password@, now, r),
    ensures
        r matches LoginOutcome::Granted { token, password_checked } ==> password_checked
            && token_at(state.jwt_secret@, guest(), now) == Some(token@),
        r is TokenFailed ==> now > i64::MAX - TOKEN_TTL_SECS,
        now <= i64::MAX - TOKEN_TTL_SECS ==> r is Granted,
{
}

/// A token issued for `sub` at time `now` decodes under the same key to `sub`,
/// `iat = now` and `exp = now + 7 days`, and is accepted up to `exp` plus the leeway.
pub proof fn law_issued_token_verifies(
    secret: Seq<char>,
    sub: Seq<char>,
    now: i64,
    r: Result<String, String>,
    later: i64,
)
    requires
        issued_at(secret, sub, now, r),
        now + TOKEN_TTL_SECS >= 0,
        later <= now + TOKEN_TTL_SECS + TOKEN_LEEWAY_SECS,
    ensures
        r matches Ok(t) ==> jwt_claims(secret, t@) == Some((sub, (now + TOKEN_TTL_SECS) as i64, now))
            && token_accepted_at(secret, t@, later),
{
}

/// A token issued at time `now` expires: verifying it later than `now + 7 days` plus
/// the leeway refuses it.
pub proof fn law_issued_token_expires(
    secret: Seq<char>,
    sub: Seq<char>,
    now: i64,
    r: Result<String, String>,
    later: i64,
)
    requires
        issued_at(secret, sub, now, r),
        now + TOKEN_TTL_SECS >= 0,
        later > now + TOKEN_TTL_SECS + TOKEN_LEEWAY_SECS,
    ensures
        r matches Ok(t) ==> !token_accepted_at(secret, t@, later),
{
}

/// The token a login grants at time `now` is one for `guest`, valid 7 days: verifying it
/// with the same key accepts it up to `now + 7 days` plus the leeway, with `sub = guest`,
/// `iat = now`, `exp = now + 7 days`.
pub proof fn law_login_token_verifies(
    state: AppState,
    password: Seq<char>,
    now: i64,
    r: LoginOutcome,
    later: i64,
)
    requires
        login_result(state, password, now, r),
        now + TOKEN_TTL_SECS >= 0,
        later <= now + TOKEN_TTL_SECS + TOKEN_LEEWAY_SECS,
    ensures
        r matches LoginOutcome::Granted { token, password_checked } ==> jwt_claims(
            state.jwt_secret@,
            token@,
        ) == Some((guest(), (now + TOKEN_TTL_SECS) as i64, now)) && token_accepted_at(
            state.jwt_secret@,
            token@,
            later,
        ),
{
}

/// The total that an orphan scan reports is the sum of the orphans' sizes, held at
/// `u64::MAX` when the sum does not fit: each orphan adds its whole size.
pub proof fn law_orphan_total_is_sum(c: Seq<OrphanCandidate>)
    ensures
        sizes_sum(c) >= 0,
        size_total(c) as int == if sizes_sum(c) > u64::MAX {
            u64::MAX as int
        } else {
            sizes_sum(c)
        },
    decreases c.len(),
{
    if c.len() > 0 {
        law_orphan_total_is_sum(c.drop_last());
        assert(sizes_sum(c) == sizes_sum(c.drop_last()) + c.last().size);
    }
}

/// Every directory made for a file id passes the orphan scan's directory filter.
pub proof fn law_file_ids_are_upload_dirs(id: Seq<char>)
    requires
        is_id_of_len(id, FILE_ID_LEN as nat),
    ensures
        is_upload_dir_name(id),
{
}

/// The orphan scan never lists a file that a record or an upload in progress points
/// to, and lists every other candidate.
pub proof fn law_orphans_spare_records(
    c: Seq<OrphanCandidate>,
    known: Seq<String>,
    active: Seq<String>,
)
    ensures
        forall|i: int|
            0 <= i < orphans(c, known, active).len() ==> !listed(
                known,
                #[trigger] orphans(c, known, active)[i].canonical@,
            ) && !listed(active, orphans(c, known, active)[i].canonical@),
        forall|j: int|
            0 <= j < c.len() && !listed(known, c[j].canonical@) && !listed(
                active,
                c[j].canonical@,
            ) ==> orphans(c, known, active).contains(#[trigger] c[j]),
{
    let f = |x: OrphanCandidate| !listed(known, x.canonical@) && !listed(active, x.canonical@);
    assert forall|i: int| 0 <= i < orphans(c, known, active).len() implies !listed(
        known,
        #[trigger] orphans(c, known, active)[i].canonical@,
    ) && !listed(active, orphans(c, known, active)[i].canonical@) by {
        c.lemma_filter_pred(f, i);
    }
    assert forall|j: int|
        0 <= j < c.len() && !listed(known, c[j].canonical@) && !listed(
            active,
            c[j].canonical@,
        ) implies orphans(c, known, active).contains(#[trigger] c[j]) by {
        c.lemma_filter_contains(f, j);
    }
}

} // verus!

verus! {

/// The Windows device names are exactly CON, PRN, AUX, NUL, COM1 to COM9 and LPT1 to
/// LPT9, in any letter case: a cleaned name whose part before the first dot is one of
/// them is stored with a leading `_`, and any other is stored as it is (both cut to 200
/// characters).
pub proof fn law_device_names_get_underscore(name: Seq<char>)
    requires
        !unusable_name(cleaned_name(name)),
    ensures
        ({
            let t = take_at_most(cleaned_name(name), MAX_NAME_CHARS as nat);
            let u = ascii_upper_seq(name_stem(t));
            let device = u == seq!['C', 'O', 'N'] || u == seq!['P', 'R', 'N'] || u == seq![
                'A',
                'U',
                'X',
            ] || u == seq!['N', 'U', 'L'] || (u.len() == 4 && ((u[0] == 'C' && u[1] == 'O'
                && u[2] == 'M') || (u[0] == 'L' && u[1] == 'P' && u[2] == 'T')) && '1' <= u[3]
                && u[3] <= '9');
            sanitized_name(name) == if device {
                seq!['_'] + t
            } else {
                t
            }
        }),
{
}

/// A stored file name never has a Windows device name (`CON`, `NUL`, `COM1`, ...) as
/// its stem, whatever its case.
pub proof fn law_sanitized_name_not_device(name: Seq<char>)
    ensures
        !is_reserved_device_name(ascii_upper_seq(name_stem(sanitized_name(name)))),
{
    let c = cleaned_name(name);
    if unusable_name(c) {
        let f = seq!['f', 'i', 'l', 'e'];
        reveal_with_fuel(first_index_of, 5);
        assert(f.drop_first() =~= seq!['i', 'l', 'e']);
        assert(f.drop_first().drop_first() =~= seq!['l', 'e']);
        assert(f.drop_first().drop_first().drop_first() =~= seq!['e']);
        assert(f.drop_first().drop_first().drop_first().drop_first() =~= Seq::<char>::empty());
        assert(first_index_of(f, '.') == -1);
        assert(name_stem(f) == f);
        let up = ascii_upper_seq(f);
        assert(up[0] == 'F');
    } else {
        let t = take_at_most(c, MAX_NAME_CHARS as nat);
        if is_reserved_device_name(ascii_upper_seq(name_stem(t))) {
            let u = seq!['_'] + t;
            assert(u[0] == '_');
            assert(u.drop_first() =~= t);
            let st = name_stem(u);
            lemma_first_index_of(u, '.');
            assert(first_index_of(u, '.') != 0);
            assert(st.len() > 0 && st[0] == '_');
            let up = ascii_upper_seq(st);
            assert(up[0] == '_');
            assert(up != seq!['C', 'O', 'N']);
            assert(up != seq!['P', 'R', 'N']);
            assert(up != seq!['A', 'U', 'X']);
            assert(up != seq!['N', 'U', 'L']);
        }
    }
}

} // verus!
