use fileshare_lib::bindings::{ts_declaration, Binding};

#[test]
fn export_bindings() {
    let app = ts_declaration(Binding::AppConfig);
    assert!(app.starts_with("export type AppConfig = {"), "export AppConfig");
    assert!(app.contains("diskMinFreeMb: number"), "export AppConfig");
    let file = ts_declaration(Binding::FileItem);
    assert!(file.starts_with("export type FileItem = {"), "export FileItem");
    assert!(!file.contains("path"), "export FileItem");
    let text = ts_declaration(Binding::TextItem);
    assert!(text.starts_with("export type TextItem = {"), "export TextItem");
    let audit = ts_declaration(Binding::AuditLog);
    assert!(audit.starts_with("export type AuditLog = {"), "export AuditLog");
    println!("✅ TS bindings written to ../src/bindings/");
}

#[test]
fn bindings_use_camel_case_names() {
    assert_eq!(
        ts_declaration(Binding::FileItem),
        "export type FileItem = { id: string, name: string, size: number, mime: string, uploaderIp: string, createdAt: bigint, };"
    );
    assert_eq!(
        ts_declaration(Binding::TextItem),
        "export type TextItem = { id: string, content: string, uploaderIp: string, createdAt: bigint, };"
    );
}
