use crate::text::{chars_of, push_char, push_chars, push_str, string_of, sub_chars};
use vstd::prelude::*;

verus! {

/// `s` shortened to its first and last `max / 2` characters joined by `...` when it
/// has more than `max` characters.
pub open spec fn truncated_mid(s: Seq<char>, max: nat) -> Seq<char> {
    if s.len() <= max {
        s
    } else {
        let half = max / 2;
        s.take(half as int) + seq!['.', '.', '.'] + s.skip(s.len() - half)
    }
}

/// Shortens a long text in the middle (see [`truncated_mid`]).
pub fn truncate_mid(s: &str, max: usize) -> (r: String)
    ensures
        r@ == truncated_mid(s@, max as nat),
        r@.len() <= max + 3,
{
    let cs = chars_of(s);
    if cs.len() <= max {
        return string_of(&cs);
    }
    let half = max / 2;
    let head = sub_chars(&cs, 0, half);
    let tail = sub_chars(&cs, cs.len() - half, cs.len());
    let mut r = string_of(&head);
    push_char(&mut r, '.');
    push_char(&mut r, '.');
    push_char(&mut r, '.');
    push_chars(&mut r, &tail);
    assert(head@ == cs@.take(half as int));
    assert(tail@ == cs@.skip(cs@.len() - half));
    r
}

/// The tray's texts for a server state.
pub struct TrayTexts {
    pub status: String,
    pub open_label: String,
    pub open_enabled: bool,
    pub tooltip: String,
}

/// Longest share URL shown in the tray menu (longer ones are cut in the middle).
pub const TRAY_URL_MAX: usize = 40;

/// The tray texts: while sharing, the menu item opens the share page (its URL shown,
/// cut in the middle) and is enabled when there is a URL; when stopped, it is disabled.
pub fn tray_texts(running: bool, share_url: &str) -> (r: TrayTexts)
    ensures
        running ==> {
            &&& r.status@ == "● 正在分享"@
            &&& r.open_label@ == if share_url@.len() == 0 {
                "打开分享页"@
            } else {
                "打开分享页 ("@ + truncated_mid(share_url@, TRAY_URL_MAX as nat) + ")"@
            }
            &&& r.open_enabled == (share_url@.len() > 0)
            &&& r.tooltip@ == "FileShare - 正在分享"@
        },
        !running ==> {
            &&& r.status@ == "○ 服务已停止"@
            &&& r.open_label@ == "打开分享页"@
            &&& !r.open_enabled
            &&& r.tooltip@ == "FileShare - 未开启"@
        },
{
    let mut status = String::new();
    let mut open_label = String::new();
    let mut tooltip = String::new();
    if running {
        push_str(&mut status, "● 正在分享");
        if share_url.is_empty() {
            push_str(&mut open_label, "打开分享页");
        } else {
            push_str(&mut open_label, "打开分享页 (");
            let t = truncate_mid(share_url, TRAY_URL_MAX);
            push_str(&mut open_label, t.as_str());
            push_str(&mut open_label, ")");
        }
        push_str(&mut tooltip, "FileShare - 正在分享");
        TrayTexts { status, open_label, open_enabled: !share_url.is_empty(), tooltip }
    } else {
        push_str(&mut status, "○ 服务已停止");
        push_str(&mut open_label, "打开分享页");
        push_str(&mut tooltip, "FileShare - 未开启");
        TrayTexts { status, open_label, open_enabled: false, tooltip }
    }
}

} // verus!
