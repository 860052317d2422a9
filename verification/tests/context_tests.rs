use encrypt_it::context::{metadata_text, MenuAction, MyContext, ProcessJob, TabView};
use encrypt_it::data::{EncryptAlgorithm, EncryptType};
use encrypt_it::tabs::TabSet;

fn initial_tabs() -> Vec<String> {
    vec![
        "ChaCha20-Poly1305".to_string(),
        "Des".to_string(),
        "Info".to_string(),
        "Output".to_string(),
    ]
}

#[test]
fn defaults() {
    assert_eq!(EncryptType::default(), EncryptType::Encryption);
    assert_eq!(EncryptAlgorithm::default(), EncryptAlgorithm::Chacha20Poly1305);
    assert!(EncryptType::Encryption.is_encrypt());
    assert!(!EncryptType::Decryption.is_encrypt());
}

#[test]
fn new_context() {
    let ctx = MyContext::new(&initial_tabs());
    assert_eq!(ctx.key, "");
    assert_eq!(ctx.nonce, "");
    assert!(ctx.file_path.is_none());
    assert!(!ctx.is_processing);
    assert_eq!(ctx.selected_algorithm, EncryptAlgorithm::Chacha20Poly1305);
    assert_eq!(ctx.operation_type, EncryptType::Encryption);
    assert_eq!(ctx.expanded_tab, Some(String::new()));
    for t in initial_tabs() {
        assert!(ctx.open_tabs.contains(&t));
    }
    assert!(!ctx.open_tabs.contains("Author"));
}

#[test]
fn tab_set_operations() {
    let mut s = TabSet::new();
    assert!(s.insert("Des"));
    assert!(!s.insert("Des"));
    assert!(s.contains("Des"));
    assert!(s.remove("Des"));
    assert!(!s.contains("Des"));
    assert!(!s.remove("Des"));
}

#[test]
fn selecting_tabs() {
    let mut ctx = MyContext::new(&initial_tabs());
    assert_eq!(ctx.select_tab("Des"), TabView::DesForm);
    assert_eq!(ctx.selected_algorithm, EncryptAlgorithm::Des);
    assert_eq!(ctx.select_tab("Info"), TabView::InfoTable);
    assert_eq!(ctx.selected_algorithm, EncryptAlgorithm::Des);
    assert_eq!(ctx.select_tab("Output"), TabView::OutputLog);
    assert_eq!(ctx.select_tab("Lain"), TabView::Plain);
    assert_eq!(ctx.select_tab("ChaCha20-Poly1305"), TabView::ChachaForm);
    assert_eq!(ctx.selected_algorithm, EncryptAlgorithm::Chacha20Poly1305);
}

#[test]
fn closing_tabs() {
    let mut ctx = MyContext::new(&initial_tabs());
    assert!(ctx.is_closeable("Des"));
    assert!(ctx.is_closeable("ChaCha20-Poly1305"));
    assert!(!ctx.is_closeable("Info"));
    assert!(ctx.on_close("Des"));
    assert!(!ctx.open_tabs.contains("Des"));
    assert!(ctx.open_tabs.contains("Info"));
}

#[test]
fn nonce_field_and_process_button() {
    let mut ctx = MyContext::new(&initial_tabs());
    assert!(ctx.shows_nonce_input());
    assert!(!ctx.can_process());
    ctx.selected_algorithm = EncryptAlgorithm::Des;
    assert!(!ctx.shows_nonce_input());
    ctx.file_path = Some("/tmp/berkas.txt".to_string());
    assert!(ctx.can_process());
}

#[test]
fn start_processing_fits_key_and_nonce() {
    let mut ctx = MyContext::new(&initial_tabs());
    ctx.file_path = Some("berkas.bin".to_string());
    ctx.key = "kunci".to_string();
    ctx.nonce = "n".repeat(30);
    ctx.operation_type = EncryptType::Decryption;
    let job = ctx.start_processing();
    assert!(ctx.is_processing);
    assert_eq!(job.file_path, "berkas.bin");
    let mut expected_key = b"kunci".to_vec();
    expected_key.resize(32, 0);
    assert_eq!(job.key, expected_key);
    assert_eq!(job.nonce, vec![b'n'; 24]);
    assert!(!job.is_encrypt);
    assert_eq!(job.action, "Dekripsi");
    assert_eq!(job.algorithm, EncryptAlgorithm::Chacha20Poly1305);
}

#[test]
fn key_bytes_are_utf8() {
    let mut ctx = MyContext::new(&initial_tabs());
    ctx.file_path = Some("f".to_string());
    ctx.key = "é".to_string();
    let job = ctx.start_processing();
    assert_eq!(&job.key[..2], &[0xC3, 0xA9]);
    assert!(job.key[2..].iter().all(|b| *b == 0));
    assert!(job.is_encrypt);
    assert_eq!(job.action, "Enkripsi");
}

fn job(algorithm: EncryptAlgorithm, is_encrypt: bool) -> ProcessJob {
    ProcessJob {
        file_path: "f".to_string(),
        key: vec![0; 32],
        nonce: vec![0; 24],
        algorithm,
        is_encrypt,
        action: if is_encrypt { "Enkripsi".to_string() } else { "Dekripsi".to_string() },
    }
}

#[test]
fn result_messages_on_success() {
    let m = job(EncryptAlgorithm::Chacha20Poly1305, true).result_messages(Some(vec![0x0a, 0xff, 0x10]), 60, 50_000_000);
    assert_eq!(m, vec!["0aff10".to_string(), "Enkripsi berhasil ✅ dalam waktu ⏱ 1m 0s 50ms".to_string()]);
    let m = job(EncryptAlgorithm::Des, false).result_messages(Some(vec![]), 0, 0);
    assert_eq!(m, vec!["".to_string(), "Dekripsi berhasil ✅ dalam waktu ⏱️: 0ms".to_string()]);
}

#[test]
fn result_messages_on_failure() {
    let m = job(EncryptAlgorithm::Des, true).result_messages(None, 1, 0);
    assert_eq!(m, vec!["Dekripsi ❌ gagal!".to_string()]);
}

#[test]
fn receiving_a_result_fills_table() {
    let mut ctx = MyContext::new(&initial_tabs());
    ctx.is_processing = true;
    let bytes: Vec<u8> = (0..20u8).collect();
    let m = job(EncryptAlgorithm::Des, true).result_messages(Some(bytes.clone()), 2, 0);
    ctx.receive_result(&m);
    assert!(!ctx.is_processing);
    assert_eq!(ctx.output_message, "Enkripsi berhasil ✅ dalam waktu ⏱️: 2s 0ms");
    assert!(ctx.ciphertext.starts_with("00 01 02 03"));
    let rows = ctx.table_rows();
    assert_eq!(rows.len(), 2);
    assert_eq!(rows[0].len(), 16);
    assert_eq!(rows[1], vec!["10", "11", "12", "13"]);
    let cells: Vec<String> = rows.concat();
    let expected: Vec<String> = bytes.iter().map(|b| format!("{:02x}", b)).collect();
    assert_eq!(cells, expected);
}

#[test]
fn update_messages() {
    let mut ctx = MyContext::new(&initial_tabs());
    ctx.update_output_message("Proses Sedang Berlangsung..");
    assert_eq!(ctx.output_message, "Proses Sedang Berlangsung..");
    ctx.update_cipher_text("a1b2c");
    assert_eq!(ctx.ciphertext, "a1 b2 c");
}

#[test]
fn menu_clicks() {
    let mut ctx = MyContext::new(&initial_tabs());
    // Open, in the dock, not expanded: expand it and take it out of the dock.
    assert_eq!(ctx.menu_click("Des", true), MenuAction::RemoveFromDock);
    assert_eq!(ctx.expanded_tab, Some("Des".to_string()));
    assert!(!ctx.open_tabs.contains("Des"));
    // Not in the dock: push it back, nothing expanded.
    assert_eq!(ctx.menu_click("Des", false), MenuAction::PushToDock);
    assert_eq!(ctx.expanded_tab, None);
    // Open and expanded: collapse.
    let mut ctx = MyContext::new(&initial_tabs());
    ctx.expanded_tab = Some("ChaCha20-Poly1305".to_string());
    assert_eq!(ctx.menu_click("ChaCha20-Poly1305", true), MenuAction::Nothing);
    assert_eq!(ctx.expanded_tab, None);
    assert!(!ctx.open_tabs.contains("ChaCha20-Poly1305"));
}

#[test]
fn file_details() {
    let t = metadata_text("/data/catatan.txt", Some("txt".to_string()), 1234, "2024-01-02 03:04:05");
    assert_eq!(t, "Lokasi: /data/catatan.txt\nTipe: text/plain\nUkuran file: 1234 bytes\nTanggal: 2024-01-02 03:04:05");
    let t = metadata_text("/data/berkas", None, 0, "");
    assert_eq!(t, "Lokasi: /data/berkas\nTipe: application/octet-stream\nUkuran file: 0 bytes\nTanggal: ");
    let mut ctx = MyContext::new(&initial_tabs());
    ctx.set_metadata("/data/gambar.png", 10, "kemarin");
    assert_eq!(ctx.file_metada, "Lokasi: /data/gambar.png\nTipe: image/png\nUkuran file: 10 bytes\nTanggal: kemarin");
    ctx.set_metadata("/data/tanpa_ekstensi", 5, "");
    assert_eq!(ctx.file_metada, "Lokasi: /data/tanpa_ekstensi\nTipe: application/octet-stream\nUkuran file: 5 bytes\nTanggal: ");
}
