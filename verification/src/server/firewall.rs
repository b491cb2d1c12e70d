use crate::text::{decimal, push_decimal, push_str};
use vstd::prelude::*;

verus! {

/// The name of the inbound firewall rule of the server.
pub open spec fn rule_name() -> Seq<char> {
    "FileShare-HTTP"@
}

/// The name of the inbound firewall rule of the server: `FileShare-HTTP`.
pub fn firewall_rule_name() -> (r: String)
    ensures
        r@ == rule_name(),
{
    let mut s = String::new();
    push_str(&mut s, "FileShare-HTTP");
    s
}

/// Whether `port` is probed now: only the first time it is seen in this process. A port
/// seen for the first time is added to `probed`.
pub fn first_probe(probed: &mut Vec<u16>, port: u16) -> (r: bool)
    ensures
        r == !old(probed)@.contains(port),
        final(probed)@ == if r {
            old(probed)@.push(port)
        } else {
            old(probed)@
        },
{
    let mut i: usize = 0;
    while i < probed.len()
        invariant
            i <= probed@.len(),
            forall|j: int| 0 <= j < i ==> probed@[j] != port,
        decreases probed@.len() - i,
    {
        if probed[i] == port {
            return false;
        }
        i = i + 1;
    }
    probed.push(port);
    true
}

/// The PowerShell command that adds the rule with elevation (UAC): an inbound TCP allow
/// rule for `port`, on every profile.
pub fn add_rule_script(port: u16) -> (r: String)
    ensures
        r@ == "Start-Process netsh -ArgumentList 'advfirewall firewall add rule name=\""@
            + rule_name() + "\" dir=in action=allow protocol=TCP localport="@ + decimal(
            port as nat,
        ) + " profile=any' -Verb RunAs -WindowStyle Hidden"@,
{
    let mut s = String::new();
    push_str(&mut s, "Start-Process netsh -ArgumentList 'advfirewall firewall add rule name=\"");
    push_str(&mut s, "FileShare-HTTP");
    push_str(&mut s, "\" dir=in action=allow protocol=TCP localport=");
    push_decimal(&mut s, port as u64);
    push_str(&mut s, " profile=any' -Verb RunAs -WindowStyle Hidden");
    s
}

/// The PowerShell command that deletes the rule with elevation (UAC).
pub fn delete_rule_script() -> (r: String)
    ensures
        r@ == "Start-Process netsh -ArgumentList 'advfirewall firewall delete rule name=\""@
            + rule_name() + "\"' -Verb RunAs -WindowStyle Hidden"@,
{
    let mut s = String::new();
    push_str(&mut s, "Start-Process netsh -ArgumentList 'advfirewall firewall delete rule name=\"");
    push_str(&mut s, "FileShare-HTTP");
    push_str(&mut s, "\"' -Verb RunAs -WindowStyle Hidden");
    s
}

/// Firewall check at server start. Rules exist on Windows only; elsewhere there is
/// nothing to check.
pub fn ensure_rule(port: u16) {
}

/// Adds the firewall rule with elevation. Elsewhere than on Windows there is no rule to
/// add, and the call succeeds.
pub fn try_add_rule_elevated(port: u16) -> (r: Result<(), String>)
    ensures
        r is Ok,
{
    Ok(())
}

/// Removes the firewall rule. Elsewhere than on Windows there is no rule.
pub fn remove_rule(port: u16) {
}

} // verus!
