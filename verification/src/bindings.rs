use crate::text::push_str;
use vstd::prelude::*;

verus! {

/// The types whose JSON shape the web front end shares.
pub enum Binding {
    AppConfig,
    FileItem,
    TextItem,
    AuditLog,
}

/// The exported TypeScript declaration of the JSON form of a shared type (fields in
/// camelCase; byte sizes typed as `number`, other 64-bit integers as `bigint`; the host
/// path of a file is never sent).
pub fn ts_declaration(b: Binding) -> (r: String)
    ensures
        r@ == match b {
            Binding::AppConfig => "export type AppConfig = { autoStart: boolean, uploadDir: string, port: number, passwordEnabled: boolean, password: string, httpsEnabled: boolean, bindIpv6: boolean, diskMinFreeMb: number, };"@,
            Binding::FileItem => "export type FileItem = { id: string, name: string, size: number, mime: string, uploaderIp: string, createdAt: bigint, };"@,
            Binding::TextItem => "export type TextItem = { id: string, content: string, uploaderIp: string, createdAt: bigint, };"@,
            Binding::AuditLog => "export type AuditLog = { id: bigint, ts: bigint, kind: string, ip: string, detail: string, };"@,
        },
{
    let mut s = String::new();
    match b {
        Binding::AppConfig => push_str(
            &mut s,
            "export type AppConfig = { autoStart: boolean, uploadDir: string, port: number, passwordEnabled: boolean, password: string, httpsEnabled: boolean, bindIpv6: boolean, diskMinFreeMb: number, };",
        ),
        Binding::FileItem => push_str(
            &mut s,
            "export type FileItem = { id: string, name: string, size: number, mime: string, uploaderIp: string, createdAt: bigint, };",
        ),
        Binding::TextItem => push_str(
            &mut s,
            "export type TextItem = { id: string, content: string, uploaderIp: string, createdAt: bigint, };",
        ),
        Binding::AuditLog => push_str(
            &mut s,
            "export type AuditLog = { id: bigint, ts: bigint, kind: string, ip: string, detail: string, };",
        ),
    }
    s
}

} // verus!
