use crate::config::AppConfig;
use crate::server::files::{upsert, FileItem, TextItem};
use crate::server::routes::{guess_mime, guessed_mime, share_file, utf8_len, MAX_TEXT_BYTES};
use crate::server::state::{
    is_id_char, is_id_of_len, new_file_id, new_id, now_secs, password_required_for, AppState, FILE_ID_LEN,
    TEXT_ID_LEN,
};
use crate::text::{chars_of, decimal, push_decimal, push_str, str_eq, take_at_most, trim_ws, trim_ws_chars};
use std::sync::Arc;
use vstd::prelude::*;

verus! {

/// What the desktop shell shows of the server.
pub struct ServerStatus {
    pub running: bool,
    pub port: u16,
    pub bind_ipv6: bool,
    pub owner_token: String,
    pub started_at: i64,
}

/// The answer to a settings refresh.
pub struct AuthRefreshResult {
    /// Whether the signing key was replaced (every visitor must log in again).
    pub rotated: bool,
    /// Whether a password is now in force.
    pub password_required: bool,
}

/// What sharing the clipboard produced.
pub struct ShareClipboardResult {
    /// `file` or `text`.
    pub kind: String,
    pub id: String,
    /// The file name, or the first 80 characters of the text.
    pub name: String,
    /// Bytes of the file, or UTF-8 bytes of the text.
    pub size: u64,
}

pub struct ShareLocalItem {
    pub id: String,
    pub name: String,
    pub size: u64,
}

pub struct ShareLocalSkipped {
    pub path: String,
    pub reason: String,
}

pub struct ShareLocalResult {
    pub added: Vec<ShareLocalItem>,
    pub skipped: Vec<ShareLocalSkipped>,
}

pub struct OrphanItem {
    pub path: String,
    pub size: u64,
}

pub struct CleanupOrphansResult {
    /// Files under upload directories that no record points to.
    pub items: Vec<OrphanItem>,
    /// Their total size (saturating).
    pub total_size: u64,
    /// Whether they were deleted (false for a dry run).
    pub removed: bool,
}

/// The command-line flag that marks a launch at login.
pub open spec fn autostart_flag() -> Seq<char> {
    seq!['-', '-', 'f', 'l', 'a', 'g', '-', 'f', 'r', 'o', 'm', '-', 'a', 'u', 't', 'o', 's', 't', 'a', 'r', 't']
}

/// Whether the process was started at login: some argument is `--flag-from-autostart`.
pub fn has_autostart_flag(args: &Vec<String>) -> (r: bool)
    ensures
        r == exists|i: int| 0 <= i < args@.len() && #[trigger] args@[i]@ == autostart_flag(),
{
    let mut flag = String::new();
    push_str(&mut flag, "--flag-from-autostart");
    proof {
        reveal_strlit("--flag-from-autostart");
    }
    assert(flag@ == autostart_flag());
    let mut i: usize = 0;
    while i < args.len()
        invariant
            i <= args@.len(),
            flag@ == autostart_flag(),
            forall|j: int| 0 <= j < i ==> args@[j]@ != autostart_flag(),
        decreases args@.len() - i,
    {
        if str_eq(args[i].as_str(), flag.as_str()) {
            return true;
        }
        i = i + 1;
    }
    false
}

/// At start-up: whether the login item must be registered again, because it is enabled
/// but this launch did not carry the flag (a registration written without it).
pub fn autostart_needs_refresh(enabled: bool, args: &Vec<String>) -> (r: bool)
    ensures
        r == (enabled && !exists|i: int|
            0 <= i < args@.len() && #[trigger] args@[i]@ == autostart_flag()),
{
    enabled && !has_autostart_flag(args)
}

/// Applies new settings to a running server and brings its password hash up to date.
pub fn refresh_auth(state: &mut AppState, config: AppConfig) -> (r: AuthRefreshResult)
    requires
        old(state).wf(),
    ensures
        final(state).wf(),
        final(state).config == config,
        r.rotated == (old(state).auth_spec() != (config.password_enabled, config.password@)),
        r.password_required == password_required_for(config.password_enabled, config.password@),
        !final(state).auth_stale(),
        !r.rotated ==> final(state).epoch() == old(state).epoch() && final(state).jwt_secret
            == old(state).jwt_secret,
        r.rotated ==> final(state).epoch() != old(state).epoch(),
{
    state.update_config(config);
    let rotated = state.reload_auth();
    let password_required = state.password_required();
    AuthRefreshResult { rotated, password_required }
}

/// Which clipboard content gets shared.
pub enum ClipboardChoice {
    Image,
    Text,
    Nothing,
}

/// An image (width, height, bytes of pixel data) that can be shared.
pub open spec fn image_usable(image: Option<(u32, u32, usize)>) -> bool {
    match image {
        Some((w, h, n)) => w > 0 && h > 0 && n > 0,
        None => false,
    }
}

/// Images win over text: an image with non-zero width, height and data is shared;
/// otherwise a text that is not blank; otherwise nothing.
pub fn clipboard_choice(image: Option<(u32, u32, usize)>, text: Option<&str>) -> (r: ClipboardChoice)
    ensures
        r == if image_usable(image) {
            ClipboardChoice::Image
        } else if text is Some && trim_ws(text->0@).len() > 0 {
            ClipboardChoice::Text
        } else {
            ClipboardChoice::Nothing
        },
{
    if let Some((w, h, n)) = image {
        if w > 0 && h > 0 && n > 0 {
            return ClipboardChoice::Image;
        }
    }
    if let Some(t) = text {
        let cs = chars_of(t);
        if trim_ws_chars(&cs).len() > 0 {
            return ClipboardChoice::Text;
        }
    }
    ClipboardChoice::Nothing
}

/// Shares clipboard text from the host: refused above 1 MiB, otherwise added with a
/// fresh 12-character id; the answer names it by its first 80 characters.
pub fn share_clipboard_text(state: &mut AppState, content: String) -> (r: Result<
    (Arc<TextItem>, ShareClipboardResult),
    String,
>)
    requires
        old(state).wf(),
    ensures
        final(state).wf(),
        final(state).config == old(state).config,
        final(state).uploads == old(state).uploads,
        final(state).registry.files() == old(state).registry.files(),
        match r {
            Ok((t, res)) => {
                &&& utf8_len(content@) <= MAX_TEXT_BYTES
                &&& t.content == content
                &&& t.uploader_ip@ == seq!['h', 'o', 's', 't']
                &&& is_id_of_len(t.id@, TEXT_ID_LEN as nat)
                &&& final(state).registry.texts() == upsert(
                    old(state).registry.texts(),
                    t.id@,
                    *t,
                )
                &&& res.kind@ == seq!['t', 'e', 'x', 't']
                &&& res.id@ == t.id@
                &&& res.name@ == take_at_most(content@, 80)
                &&& res.size == utf8_len(content@)
            },
            Err(e) => utf8_len(content@) > MAX_TEXT_BYTES && e@ == "剪贴板文本过大（>1MB）"@
                && *final(state) == *old(state),
        },
{
    if content.as_str().len() > MAX_TEXT_BYTES {
        let mut e = String::new();
        push_str(&mut e, "剪贴板文本过大（>1MB）");
        return Err(e);
    }
    let id = new_id(TEXT_ID_LEN);
    let cs = chars_of(content.as_str());
    let n = if cs.len() < 80 {
        cs.len()
    } else {
        80
    };
    let mut preview = String::new();
    let mut i: usize = 0;
    while i < n
        invariant
            i <= n <= cs@.len(),
            preview@ == cs@.take(i as int),
        decreases n - i,
    {
        crate::text::push_char(&mut preview, cs[i]);
        i = i + 1;
        assert(preview@ == cs@.take(i as int));
    }
    assert(preview@ == take_at_most(content@, 80));
    let size = content.as_str().len() as u64;
    let mut host = String::new();
    push_str(&mut host, "host");
    proof {
        reveal_strlit("host");
    }
    let item = TextItem { id: id.clone(), content, uploader_ip: host, created_at: now_secs() };
    let t = state.registry.add_text(item);
    let mut kind = String::new();
    push_str(&mut kind, "text");
    proof {
        reveal_strlit("text");
    }
    Ok((t, ShareClipboardResult { kind, id, name: preview, size }))
}

/// The PNG file that the `image` crate encodes from an RGBA buffer of `w` x `h` pixels,
/// or None when it refuses.
pub uninterp spec fn png_of(w: u32, h: u32, rgba: Seq<u8>) -> Option<Seq<u8>>;

/// `image::RgbaImage::from_raw` followed by `write_to` in the PNG format: an error when
/// the buffer holds fewer than `w * h * 4` bytes (empty message), or the encoder's error
/// message; the bytes depend on the arguments alone.
#[verifier::external_body]
fn encode_png(w: u32, h: u32, rgba: &[u8]) -> (r: Result<Vec<u8>, String>)
    ensures
        rgba@.len() < w * h * 4 ==> r is Err,
        match r {
            Ok(b) => png_of(w, h, rgba@) == Some(b@),
            Err(_) => png_of(w, h, rgba@) is None,
        },
{
    let img = match image::RgbaImage::from_raw(w, h, rgba.to_vec()) {
        Some(img) => img,
        None => return Err(String::new()),
    };
    let mut out = std::io::Cursor::new(Vec::new());
    img.write_to(&mut out, image::ImageFormat::Png).map_err(|e| e.to_string())?;
    Ok(out.into_inner())
}

/// The PNG encoding of a clipboard image: refused when the buffer is smaller than its
/// dimensions say, or with the encoder's message when encoding fails.
pub fn clipboard_png(w: u32, h: u32, rgba: &[u8]) -> (r: Result<Vec<u8>, String>)
    ensures
        match r {
            Ok(b) => rgba@.len() >= w * h * 4 && png_of(w, h, rgba@) == Some(b@),
            Err(e) => if rgba@.len() < w * h * 4 {
                e@ == "剪贴板图片尺寸与数据不匹配"@
            } else {
                png_of(w, h, rgba@) is None && e@.len() >= "PNG 编码失败: "@.len() && e@.take(
                    "PNG 编码失败: "@.len() as int,
                ) == "PNG 编码失败: "@
            },
        },
{
    let wide_w = w as u128;
    let wide_h = h as u128;
    assert(wide_w * wide_h <= u32::MAX * u32::MAX) by (nonlinear_arith)
        requires
            wide_w <= u32::MAX,
            wide_h <= u32::MAX,
    ;
    if (rgba.len() as u128) < wide_w * wide_h * 4 {
        let mut e = String::new();
        push_str(&mut e, "剪贴板图片尺寸与数据不匹配");
        return Err(e);
    }
    match encode_png(w, h, rgba) {
        Ok(b) => Ok(b),
        Err(detail) => {
            let mut e = String::new();
            push_str(&mut e, "PNG 编码失败: ");
            let ghost prefix = e@;
            push_str(&mut e, detail.as_str());
            assert(e@.take(prefix.len() as int) =~= prefix);
            Err(e)
        },
    }
}

/// Where a clipboard image goes: a fresh file id (its directory under the upload
/// directory) and the name `clipboard-<millis>.png`.
pub struct ClipboardImagePlan {
    pub id: String,
    pub name: String,
}

/// The name of a clipboard image taken at `millis` ms after the epoch.
pub open spec fn clipboard_image_name(millis: u64) -> Seq<char> {
    "clipboard-"@ + decimal(millis as nat) + ".png"@
}

/// Plans where a clipboard image is stored; refused when no upload directory is set.
pub fn plan_clipboard_image(upload_dir: &str, millis: u64) -> (r: Result<ClipboardImagePlan, String>)
    ensures
        match r {
            Ok(p) => upload_dir@.len() > 0 && is_id_of_len(p.id@, FILE_ID_LEN as nat) && p.name@
                == clipboard_image_name(millis),
            Err(e) => upload_dir@.len() == 0 && e@ == "uploadDir 未配置"@,
        },
{
    if upload_dir.unicode_len() == 0 {
        let mut e = String::new();
        push_str(&mut e, "uploadDir 未配置");
        return Err(e);
    }
    let mut name = String::new();
    push_str(&mut name, "clipboard-");
    push_decimal(&mut name, millis);
    push_str(&mut name, ".png");
    Ok(ClipboardImagePlan { id: new_file_id(), name })
}

/// Shares a clipboard image written to `path` (`size` bytes) under its planned id.
pub fn share_clipboard_image(
    state: &mut AppState,
    plan: ClipboardImagePlan,
    path: String,
    size: u64,
) -> (r: (Arc<FileItem>, ShareClipboardResult))
    requires
        old(state).wf(),
    ensures
        final(state).wf(),
        final(state).config == old(state).config,
        final(state).uploads == old(state).uploads,
        final(state).registry.texts() == old(state).registry.texts(),
        r.0.id == plan.id && r.0.name == plan.name && r.0.size == size && r.0.path == path,
        r.0.mime@ == "image/png"@,
        r.0.uploader_ip@ == "host"@,
        final(state).registry.files() == upsert(old(state).registry.files(), plan.id@, *r.0),
        r.1.kind@ == "file"@ && r.1.id == plan.id && r.1.name == plan.name && r.1.size == size,
{
    let mut mime = String::new();
    push_str(&mut mime, "image/png");
    let mut host = String::new();
    push_str(&mut host, "host");
    let mut kind = String::new();
    push_str(&mut kind, "file");
    let id = plan.id.clone();
    let name = plan.name.clone();
    let f = share_file(state, plan.id, plan.name, size, mime, host, path);
    (f, ShareClipboardResult { kind, id, name, size })
}

/// Why a local path was not shared.
pub enum LocalSkip {
    /// It does not exist or cannot be read.
    Missing,
    /// It is a directory.
    Directory,
    /// It is neither a directory nor a regular file.
    NotRegularFile,
}

/// Whether a local path can be shared, from what its metadata says (`None` when it
/// could not be read).
pub fn local_skip_reason(metadata: Option<(bool, bool)>) -> (r: Option<LocalSkip>)
    ensures
        r == match metadata {
            None => Some(LocalSkip::Missing),
            Some((is_dir, is_file)) => if is_dir {
                Some(LocalSkip::Directory)
            } else if !is_file {
                Some(LocalSkip::NotRegularFile)
            } else {
                None
            },
        },
{
    match metadata {
        None => Some(LocalSkip::Missing),
        Some((is_dir, is_file)) => if is_dir {
            Some(LocalSkip::Directory)
        } else if !is_file {
            Some(LocalSkip::NotRegularFile)
        } else {
            None
        },
    }
}

/// Shares a host file in place (no copy): a fresh 16-character id, the MIME type
/// guessed from the path, uploader `host`.
pub fn share_local_file(state: &mut AppState, path: String, name: String, size: u64) -> (r: (
    Arc<FileItem>,
    ShareLocalItem,
))
    requires
        old(state).wf(),
    ensures
        final(state).wf(),
        final(state).config == old(state).config,
        final(state).uploads == old(state).uploads,
        final(state).registry.texts() == old(state).registry.texts(),
        is_id_of_len(r.0.id@, FILE_ID_LEN as nat),
        r.0.name == name && r.0.size == size && r.0.path == path,
        r.0.mime@ == guessed_mime(path@),
        r.0.uploader_ip@ == seq!['h', 'o', 's', 't'],
        final(state).registry.files() == upsert(old(state).registry.files(), r.0.id@, *r.0),
        r.1.id@ == r.0.id@ && r.1.name == name && r.1.size == size,
{
    let mime = guess_mime(path.as_str());
    let id = new_id(FILE_ID_LEN);
    let mut host = String::new();
    push_str(&mut host, "host");
    proof {
        reveal_strlit("host");
    }
    let shown = ShareLocalItem { id: id.clone(), name: name.clone(), size };
    let item = FileItem {
        id,
        name,
        size,
        mime,
        uploader_ip: host,
        created_at: now_secs(),
        path,
    };
    let f = state.registry.add_file(item);
    (f, shown)
}

/// Whether a directory name looks like one the server created for an upload: 16
/// characters from the id alphabet.
pub open spec fn is_upload_dir_name(name: Seq<char>) -> bool {
    is_id_of_len(name, FILE_ID_LEN as nat)
}

pub fn upload_dir_name(name: &str) -> (r: bool)
    ensures
        r == is_upload_dir_name(name@),
{
    let cs = chars_of(name);
    if cs.len() != FILE_ID_LEN {
        return false;
    }
    let mut i: usize = 0;
    while i < cs.len()
        invariant
            i <= cs@.len(),
            cs@ == name@,
            forall|j: int| 0 <= j < i ==> is_id_char(#[trigger] cs@[j]),
        decreases cs@.len() - i,
    {
        let c = cs[i];
        let ok = c == '_' || c == '-' || ('0' <= c && c <= '9') || ('a' <= c && c <= 'z') || (
        'A' <= c && c <= 'Z');
        if !ok {
            return false;
        }
        i = i + 1;
    }
    true
}

/// A file found under an upload directory.
pub struct OrphanCandidate {
    pub path: String,
    /// The canonical form of `path` (or `path` itself when it has none).
    pub canonical: String,
    pub size: u64,
}

/// Whether `x` is one of `v`.
pub open spec fn listed(v: Seq<String>, x: Seq<char>) -> bool {
    exists|i: int| 0 <= i < v.len() && #[trigger] v[i]@ == x
}

fn is_listed(v: &Vec<String>, x: &str) -> (r: bool)
    ensures
        r == listed(v@, x@),
{
    let mut i: usize = 0;
    while i < v.len()
        invariant
            i <= v@.len(),
            forall|j: int| 0 <= j < i ==> v@[j]@ != x@,
        decreases v@.len() - i,
    {
        if str_eq(v[i].as_str(), x) {
            return true;
        }
        i = i + 1;
    }
    false
}

/// The candidates that neither a file record nor an upload in progress points to.
pub open spec fn orphans(c: Seq<OrphanCandidate>, known: Seq<String>, active: Seq<String>) -> Seq<
    OrphanCandidate,
> {
    c.filter(|x: OrphanCandidate| !listed(known, x.canonical@) && !listed(active, x.canonical@))
}

/// The sum of the sizes of `c`.
pub open spec fn sizes_sum(c: Seq<OrphanCandidate>) -> int {
    c.fold_left(0int, |acc: int, x: OrphanCandidate| acc + x.size)
}

/// Saturating sum of the sizes.
pub open spec fn size_total(c: Seq<OrphanCandidate>) -> u64
    decreases c.len(),
{
    if c.len() == 0 {
        0
    } else {
        let t = size_total(c.drop_last()) + c.last().size;
        if t > u64::MAX {
            u64::MAX
        } else {
            t as u64
        }
    }
}

/// Picks the orphans among the candidates (canonical paths compared), with their total
/// size; `removed` tells whether they are to be deleted (not a dry run).
pub fn collect_orphans(
    candidates: Vec<OrphanCandidate>,
    known: &Vec<String>,
    active: &Vec<String>,
    dry_run: bool,
) -> (r: CleanupOrphansResult)
    ensures
        r.items@.len() == orphans(candidates@, known@, active@).len(),
        forall|i: int|
            0 <= i < r.items@.len() ==> #[trigger] r.items@[i].path == orphans(
                candidates@,
                known@,
                active@,
            )[i].path && r.items@[i].size == orphans(candidates@, known@, active@)[i].size,
        r.total_size == size_total(orphans(candidates@, known@, active@)),
        r.total_size as int == if sizes_sum(orphans(candidates@, known@, active@)) > u64::MAX {
            u64::MAX as int
        } else {
            sizes_sum(orphans(candidates@, known@, active@))
        },
        r.removed == !dry_run,
{
    let ghost all = candidates@;
    let ghost f = |x: OrphanCandidate| !listed(known@, x.canonical@) && !listed(active@, x.canonical@);
    let mut rest = candidates;
    let mut items: Vec<OrphanItem> = Vec::new();
    let mut picked: Ghost<Seq<OrphanCandidate>> = Ghost(Seq::empty());
    let mut total: u64 = 0;
    let mut i: usize = 0;
    assert(all.len() == rest.len());
    proof {
        reveal_with_fuel(Seq::filter, 1);
        assert(all.take(0).filter(f) =~= Seq::<OrphanCandidate>::empty());
    }
    while rest.len() > 0
        invariant
            i + rest@.len() == all.len(),
            all.len() <= usize::MAX,
            rest@ == all.subrange(i as int, all.len() as int),
            picked@ == all.take(i as int).filter(f),
            items@.len() == picked@.len(),
            forall|j: int|
                0 <= j < items@.len() ==> #[trigger] items@[j].path == picked@[j].path
                    && items@[j].size == picked@[j].size,
            total == size_total(picked@),
            f == (|x: OrphanCandidate| !listed(known@, x.canonical@) && !listed(
                active@,
                x.canonical@,
            )),
        decreases rest@.len(),
    {
        let c = rest.remove(0);
        assert(c == all[i as int]);
        let orphan = !is_listed(known, c.canonical.as_str()) && !is_listed(
            active,
            c.canonical.as_str(),
        );
        proof {
            assert(all.take(i + 1).drop_last() == all.take(i as int));
            reveal_with_fuel(Seq::filter, 1);
        }
        if orphan {
            proof {
                picked@ = picked@.push(c);
            }
            total = total.saturating_add(c.size);
            items.push(OrphanItem { path: c.path, size: c.size });
            assert(picked@.drop_last() == all.take(i as int).filter(f));
        }
        i = i + 1;
        assert(rest@ =~= all.subrange(i as int, all.len() as int));
    }
    assert(all.take(i as int) == all);
    proof {
        crate::laws::law_orphan_total_is_sum(picked@);
    }
    CleanupOrphansResult { items, total_size: total, removed: !dry_run }
}

} // verus!
