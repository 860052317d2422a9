//! The workbench's state and the decisions taken on it: which view a tab
//! shows, what a processing run is handed, what its result is reported as,
//! and how the menu, the output and the file details change.
use vstd::prelude::*;
use vstd::utf8::encode_utf8;
use crate::crypto::{chacha_spec, des_spec, lemma_des_first_key_bytes, CryptoError};
use crate::data::{EncryptAlgorithm, EncryptType};
use crate::tabs::{same_text, TabSet};
use crate::text::{
    chunks_of, decimal, decimal_string, hex_cells, hex_encode, hex_lower, lemma_words_of_spaced_hex,
    rows_of_words, spaced_pairs, spaced_pairs_of, words,
};

verus! {

/// Number of cells in a row of the hex table.
pub const TABLE_COLUMNS: usize = 16;

/// Length of the key handed to a cipher, in bytes.
pub const KEY_LEN: usize = 32;

/// Length of the nonce handed to XChaCha20-Poly1305, in bytes.
pub const NONCE_LEN: usize = 24;

/// What a tab shows.
#[derive(PartialEq, Eq, Structural, Clone, Copy, Debug)]
pub enum TabView {
    /// The XChaCha20-Poly1305 form.
    ChachaForm,
    /// The DES form.
    DesForm,
    /// The hex table of the last result.
    InfoTable,
    /// The status and output message.
    OutputLog,
    /// The tab's name alone.
    Plain,
}

/// What the dock must do after a click on an algorithm in the menu.
#[derive(PartialEq, Eq, Structural, Clone, Copy, Debug)]
pub enum MenuAction {
    /// Leave the dock as it is.
    Nothing,
    /// Take the tab out of the dock.
    RemoveFromDock,
    /// Add the tab to the focused part of the dock.
    PushToDock,
}

/// The state of the workbench.
pub struct MyContext {
    pub key: String,
    pub nonce: String,
    pub file_path: Option<String>,
    pub output_message: String,
    pub ciphertext: String,
    pub is_processing: bool,
    pub selected_algorithm: EncryptAlgorithm,
    pub operation_type: EncryptType,
    pub show_close_buttons: bool,
    pub open_tabs: TabSet,
    pub expanded_tab: Option<String>,
    pub file_metada: String,
}

/// Everything a processing run needs, fixed when the run starts.
pub struct ProcessJob {
    pub file_path: String,
    pub key: Vec<u8>,
    pub nonce: Vec<u8>,
    pub algorithm: EncryptAlgorithm,
    pub is_encrypt: bool,
    pub action: String,
}

/// `bytes` cut or zero-extended to exactly `n` bytes.
pub open spec fn fit_bytes(bytes: Seq<u8>, n: nat) -> Seq<u8> {
    if bytes.len() >= n {
        bytes.take(n as int)
    } else {
        bytes + Seq::new((n - bytes.len()) as nat, |i: int| 0u8)
    }
}

/// Fitting keeps the first `min(len, n)` bytes where they are and fills the
/// rest up to `n` with zeros.
pub proof fn lemma_fit_bytes(bytes: Seq<u8>, n: nat)
    ensures
        fit_bytes(bytes, n).len() == n,
        forall|i: int| 0 <= i < n && i < bytes.len() ==> #[trigger] fit_bytes(bytes, n)[i] == bytes[i],
        forall|i: int| bytes.len() <= i < n ==> #[trigger] fit_bytes(bytes, n)[i] == 0u8,
{
}

/// The view a tab of the given name shows.
pub open spec fn tab_view_of(tab: Seq<char>) -> TabView {
    if tab == "ChaCha20-Poly1305"@ {
        TabView::ChachaForm
    } else if tab == "Des"@ {
        TabView::DesForm
    } else if tab == "Info"@ {
        TabView::InfoTable
    } else if tab == "Output"@ {
        TabView::OutputLog
    } else {
        TabView::Plain
    }
}

/// The word that names an operation in messages.
pub open spec fn action_word(is_encrypt: bool) -> Seq<char> {
    if is_encrypt {
        "Enkripsi"@
    } else {
        "Dekripsi"@
    }
}

/// The text between the operation's name and its duration in a success
/// message; it differs between the two ciphers.
pub open spec fn success_infix(algorithm: EncryptAlgorithm) -> Seq<char> {
    match algorithm {
        EncryptAlgorithm::Chacha20Poly1305 => " berhasil ✅ dalam waktu ⏱ "@,
        EncryptAlgorithm::Des => " berhasil ✅ dalam waktu ⏱️: "@,
    }
}

/// The message that reports a failed run.
pub open spec fn failure_message() -> Seq<char> {
    "Dekripsi ❌ gagal!"@
}

/// The message shown while a run is going on.
pub open spec fn progress_message() -> Seq<char> {
    "Proses Sedang Berlangsung.."@
}

/// The MIME type shown when a file has no extension.
pub open spec fn octet_stream() -> Seq<char> {
    "application/octet-stream"@
}

/// The file details shown for a chosen file.
pub open spec fn metadata_spec(path: Seq<char>, file_type: Seq<char>, size: nat, last_edited: Seq<char>) -> Seq<char> {
    "Lokasi: "@ + path + "\nTipe: "@ + file_type + "\nUkuran file: "@ + decimal(size) + " bytes\nTanggal: "@
        + last_edited
}

/// Whether `e` could be the extension of `path`: it holds no '.' and stands
/// right after a '.' in the path.
pub open spec fn extension_candidate(e: Seq<char>, path: Seq<char>) -> bool {
    &&& !e.contains('.')
    &&& exists|i: int|
        0 <= i && i + 1 + e.len() <= path.len() && path[i] == '.' && path.subrange(i + 1, i + 1 + e.len()) == e
}

/// The text after the last `c` in `s`; all of `s` when `c` does not occur.
pub open spec fn after_last(s: Seq<char>, c: char) -> Seq<char>
    decreases s.len(),
{
    if s.len() == 0 {
        s
    } else if s.last() == c {
        Seq::empty()
    } else {
        after_last(s.drop_last(), c).push(s.last())
    }
}

/// Whether `c` separates path components on some platform: '/' or '\\'.
pub open spec fn is_path_separator(c: char) -> bool {
    c == '/' || c == '\\'
}

/// The text after the last separator ('/' or '\\') in `s`; all of `s` when
/// there is none.
pub open spec fn after_last_separator(s: Seq<char>) -> Seq<char>
    decreases s.len(),
{
    if s.len() == 0 {
        s
    } else if is_path_separator(s.last()) {
        Seq::empty()
    } else {
        after_last_separator(s.drop_last()).push(s.last())
    }
}

/// A path whose extension every platform reads the same way: it does not start
/// with two separators (a network or device prefix), and its file name (after
/// the last '/' or '\\') is non-empty, does not start with '.', holds a '.', and
/// is not a drive prefix such as "C:" directly followed by '.'.
pub open spec fn plain_file_path(path: Seq<char>) -> bool {
    let name = after_last_separator(path);
    &&& !(path.len() >= 2 && is_path_separator(path[0]) && is_path_separator(path[1]))
    &&& name.len() > 0
    &&& name[0] != '.'
    &&& name.contains('.')
    &&& !(name == path && path.len() >= 3 && path[1] == ':' && path[2] == '.')
}

/// The MIME types the details may show for `path`: `application/octet-stream`,
/// or the type of an extension of the path.
pub open spec fn file_type_candidate(t: Seq<char>, path: Seq<char>) -> bool {
    t == octet_stream() || exists|e: Seq<char>| extension_candidate(e, path) && t == mime_type_name(e)
}

/// The MIME type that `mime_guess` gives first for a file extension,
/// `application/octet-stream` where it knows none.
pub uninterp spec fn mime_type_name(ext: Seq<char>) -> Seq<char>;

/// `n` in decimal followed by `unit` and a space, where `shown`; nothing
/// otherwise.
pub open spec fn unit_part(shown: bool, n: nat, unit: Seq<char>) -> Seq<char> {
    if shown {
        decimal(n) + unit + " "@
    } else {
        Seq::empty()
    }
}

/// How `human_duration` writes `secs` seconds and `millis` milliseconds: years
/// of 31 536 000 s, months of 2 628 000 s, days, hours, minutes and seconds,
/// starting from the largest unit that is non-zero, then the milliseconds.
pub open spec fn human_duration_spec(secs: nat, millis: nat) -> Seq<char> {
    let years = secs / 31_536_000;
    let r1 = secs % 31_536_000;
    let months = r1 / 2_628_000;
    let r2 = r1 % 2_628_000;
    let days = r2 / 86_400;
    let r3 = r2 % 86_400;
    let hours = r3 / 3_600;
    let r4 = r3 % 3_600;
    let minutes = r4 / 60;
    let seconds = r4 % 60;
    let show_years = years > 0;
    let show_months = show_years || months > 0;
    let show_days = show_months || days > 0;
    let show_hours = show_days || hours > 0;
    let show_minutes = show_hours || minutes > 0;
    let show_seconds = show_minutes || secs > 0;
    unit_part(show_years, years, "y"@) + unit_part(show_months, months, "mon"@) + unit_part(show_days, days, "d"@)
        + unit_part(show_hours, hours, "h"@) + unit_part(show_minutes, minutes, "m"@) + unit_part(
        show_seconds,
        seconds,
        "s"@,
    ) + decimal(millis) + "ms"@
}

/// Calls `mime_guess::MimeGuess::from_ext(ext).first_or_octet_stream()` and
/// renders the MIME type as text.
/// Claimed: the result is what `mime_type_name` names for `ext`, and an empty
/// extension gives `application/octet-stream` (the source returns no guess for
/// it). Which type each extension maps to is the crate's table and is not stated.
#[verifier::external_body]
pub(crate) fn mime_for_extension(ext: &str) -> (r: String)
    ensures
        r@ == mime_type_name(ext@),
        ext@.len() == 0 ==> r@ == octet_stream(),
{
    mime_guess::MimeGuess::from_ext(ext).first_or_octet_stream().to_string()
}

/// Calls `std::path::Path::extension` on `path`, as text.
/// Claimed: an extension that comes back holds no '.' and stands right after a
/// '.' in the path; for a path whose file name every platform splits the same
/// way (`plain_file_path`), it is the text after the last '.'. For other paths,
/// whether one comes back and which part it is depends on the platform's path
/// syntax and is not stated.
#[verifier::external_body]
pub(crate) fn path_extension(path: &str) -> (r: Option<String>)
    ensures
        r matches Some(e) ==> extension_candidate(e@, path@),
        plain_file_path(path@) ==> r is Some && r->Some_0@ == after_last(path@, '.'),
{
    match std::path::Path::new(path).extension() {
        Some(e) => Some(e.to_string_lossy().into_owned()),
        None => None,
    }
}

/// Calls `human_duration::human_duration` on the duration of `secs` seconds
/// and `nanos` nanoseconds.
/// Claimed, as its source shows: the units from the largest non-zero one down
/// to seconds, each as a decimal number with its suffix, then the whole
/// milliseconds, joined by single spaces (`human_duration_spec`).
#[verifier::external_body]
pub(crate) fn duration_text(secs: u64, nanos: u32) -> (r: String)
    requires
        nanos < 1_000_000_000,
    ensures
        r@ == human_duration_spec(secs as nat, (nanos / 1_000_000) as nat),
{
    human_duration::human_duration(&std::time::Duration::new(secs, nanos))
}

/// The UTF-8 bytes of `text`, cut or zero-extended to `n` bytes.
pub fn fit_text_bytes(text: &str, n: usize) -> (r: Vec<u8>)
    ensures
        r@ == fit_bytes(encode_utf8(text@), n as nat),
        r@.len() == n,
        forall|i: int| 0 <= i < n && i < encode_utf8(text@).len() ==> #[trigger] r@[i] == encode_utf8(text@)[i],
        forall|i: int| encode_utf8(text@).len() <= i < n ==> #[trigger] r@[i] == 0u8,
{
    let mut v: Vec<u8> = Vec::new();
    v.extend_from_slice(text.as_bytes());
    assert(v@ =~= encode_utf8(text@));
    let old_len = v.len();
    v.resize(n, 0u8);
    proof {
        lemma_fit_bytes(encode_utf8(text@), n as nat);
        if n > old_len {
            assert forall|i: int| old_len <= i < n implies v@[i] == 0u8 by {
                assert(cloned::<u8>(0u8, v@[i]));
            }
            assert(v@ =~= fit_bytes(encode_utf8(text@), n as nat));
        } else {
            assert(v@ =~= fit_bytes(encode_utf8(text@), n as nat));
        }
    }
    v
}

/// The file details text: location, MIME type (from the extension, or
/// `application/octet-stream` without one), size in bytes and modification time.
pub fn metadata_text(path: &str, extension: Option<String>, file_size: u64, last_edited: &str) -> (r: String)
    ensures
        r@ == metadata_spec(
            path@,
            match extension {
                Some(e) => mime_type_name(e@),
                None => octet_stream(),
            },
            file_size as nat,
            last_edited@,
        ),
{
    let file_type = match &extension {
        Some(e) => mime_for_extension(e.as_str()),
        None => String::from_str("application/octet-stream"),
    };
    let mut r = String::from_str("Lokasi: ");
    r.append(path);
    r.append("\nTipe: ");
    r.append(file_type.as_str());
    r.append("\nUkuran file: ");
    let size = decimal_string(file_size);
    r.append(size.as_str());
    r.append(" bytes\nTanggal: ");
    r.append(last_edited);
    r
}

impl ProcessJob {
    /// The messages that report a run: on success the hex text of the
    /// ciphertext shown, then the operation's name with the time it took; on
    /// failure the one failure message.
    pub fn result_messages(&self, outcome: Option<Vec<u8>>, secs: u64, nanos: u32) -> (r: Vec<String>)
        requires
            nanos < 1_000_000_000,
        ensures
            outcome matches Some(c) ==> {
                &&& r@.len() == 2
                &&& r@[0]@ == hex_lower(c@)
                &&& r@[1]@ == self.action@ + success_infix(self.algorithm) + human_duration_spec(
                    secs as nat,
                    (nanos / 1_000_000) as nat,
                )
            },
            outcome is None ==> r@.len() == 1 && r@[0]@ == failure_message(),
    {
        match outcome {
            Some(c) => {
                let hex = hex_encode(c.as_slice());
                let mut line = String::from_str(self.action.as_str());
                match self.algorithm {
                    EncryptAlgorithm::Chacha20Poly1305 => line.append(" berhasil ✅ dalam waktu ⏱ "),
                    EncryptAlgorithm::Des => line.append(" berhasil ✅ dalam waktu ⏱️: "),
                }
                let took = duration_text(secs, nanos);
                line.append(took.as_str());
                let mut r = Vec::new();
                r.push(hex);
                r.push(line);
                r
            },
            None => {
                let mut r = Vec::new();
                r.push(String::from_str("Dekripsi ❌ gagal!"));
                r
            },
        }
    }
}

impl MyContext {
    /// The workbench at start: empty key, nonce, messages and details, no file,
    /// XChaCha20-Poly1305 and encryption selected, the given tabs open and an
    /// empty name as the expanded tab.
    pub fn new(tabs: &Vec<String>) -> (r: MyContext)
        ensures
            r.key@ == Seq::<char>::empty(),
            r.nonce@ == Seq::<char>::empty(),
            r.file_path is None,
            r.output_message@ == Seq::<char>::empty(),
            r.ciphertext@ == Seq::<char>::empty(),
            !r.is_processing,
            r.selected_algorithm == EncryptAlgorithm::Chacha20Poly1305,
            r.operation_type == EncryptType::Encryption,
            !r.show_close_buttons,
            r.open_tabs@ == tabs.deep_view().to_set(),
            r.expanded_tab matches Some(e) && e@ == Seq::<char>::empty(),
            r.file_metada@ == Seq::<char>::empty(),
    {
        let mut open_tabs = TabSet::new();
        let mut i: usize = 0;
        while i < tabs.len()
            invariant
                i <= tabs@.len(),
                open_tabs@ == tabs.deep_view().take(i as int).to_set(),
            decreases tabs@.len() - i,
        {
            let ghost before = open_tabs@;
            open_tabs.insert(tabs[i].as_str());
            proof {
                assert(tabs.deep_view().take(i + 1) =~= tabs.deep_view().take(i as int).push(tabs@[i as int]@));
                assert(tabs.deep_view().take(i + 1).to_set() =~= before.insert(tabs@[i as int]@)) by {
                    assert forall|x: Seq<char>| tabs.deep_view().take(i + 1).to_set().contains(x)
                        == before.insert(tabs@[i as int]@).contains(x) by {
                        let s0 = tabs.deep_view().take(i as int);
                        let s1 = tabs.deep_view().take(i + 1);
                        if s1.contains(x) {
                            let k = choose|k: int| 0 <= k < s1.len() && s1[k] == x;
                            if k < i {
                                assert(s0[k] == x);
                            }
                        }
                        if s0.contains(x) {
                            let k = choose|k: int| 0 <= k < s0.len() && s0[k] == x;
                            assert(s1[k] == x);
                        }
                        if x == tabs@[i as int]@ {
                            assert(s1[i as int] == x);
                        }
                    }
                }
            }
            i += 1;
        }
        assert(tabs.deep_view().take(i as int) =~= tabs.deep_view());
        MyContext {
            key: String::new(),
            nonce: String::new(),
            file_path: None,
            output_message: String::new(),
            ciphertext: String::new(),
            is_processing: false,
            selected_algorithm: EncryptAlgorithm::Chacha20Poly1305,
            operation_type: EncryptType::Encryption,
            show_close_buttons: false,
            open_tabs,
            expanded_tab: Some(String::new()),
            file_metada: String::new(),
        }
    }

    /// Replaces the output message.
    pub fn update_output_message(&mut self, new_text: &str)
        ensures
            final(self).output_message@ == new_text@,
            *final(self) == (MyContext { output_message: final(self).output_message, ..*old(self) }),
    {
        self.output_message = new_text.to_owned();
    }

    /// Replaces the shown ciphertext with `new_text` in pairs of characters
    /// separated by single spaces.
    pub fn update_cipher_text(&mut self, new_text: &str)
        ensures
            final(self).ciphertext@ == spaced_pairs(new_text@),
            *final(self) == (MyContext { ciphertext: final(self).ciphertext, ..*old(self) }),
    {
        self.ciphertext = spaced_pairs_of(new_text);
    }

    /// The cells of the hex table: the words of the shown ciphertext, sixteen
    /// to a row.
    pub fn table_rows(&self) -> (rows: Vec<Vec<String>>)
        ensures
            rows.deep_view() == chunks_of(words(self.ciphertext@), TABLE_COLUMNS as nat),
    {
        rows_of_words(self.ciphertext.as_str(), TABLE_COLUMNS)
    }

    /// Selecting a tab: the cipher tabs also select their cipher; the result
    /// says what the tab shows.
    pub fn select_tab(&mut self, tab: &str) -> (r: TabView)
        ensures
            r == tab_view_of(tab@),
            r == TabView::ChachaForm ==> *final(self) == (MyContext {
                selected_algorithm: EncryptAlgorithm::Chacha20Poly1305,
                ..*old(self)
            }),
            r == TabView::DesForm ==> *final(self) == (MyContext {
                selected_algorithm: EncryptAlgorithm::Des,
                ..*old(self)
            }),
            r != TabView::ChachaForm && r != TabView::DesForm ==> *final(self) == *old(self),
    {
        let t = tab.to_owned();
        if same_text(&t, "ChaCha20-Poly1305") {
            self.selected_algorithm = EncryptAlgorithm::Chacha20Poly1305;
            TabView::ChachaForm
        } else if same_text(&t, "Des") {
            self.selected_algorithm = EncryptAlgorithm::Des;
            TabView::DesForm
        } else if same_text(&t, "Info") {
            TabView::InfoTable
        } else if same_text(&t, "Output") {
            TabView::OutputLog
        } else {
            TabView::Plain
        }
    }

    /// Only the cipher tabs can be closed.
    pub fn is_closeable(&self, tab: &str) -> (r: bool)
        ensures
            r == (tab@ == "ChaCha20-Poly1305"@ || tab@ == "Des"@),
    {
        let t = tab.to_owned();
        same_text(&t, "ChaCha20-Poly1305") || same_text(&t, "Des")
    }

    /// Closing a tab forgets it as open; closing is always allowed.
    pub fn on_close(&mut self, tab: &str) -> (r: bool)
        ensures
            r,
            final(self).open_tabs@ == old(self).open_tabs@.remove(tab@),
            *final(self) == (MyContext { open_tabs: final(self).open_tabs, ..*old(self) }),
    {
        self.open_tabs.remove(tab);
        true
    }

    /// Whether the nonce field is shown: only for XChaCha20-Poly1305.
    pub fn shows_nonce_input(&self) -> (r: bool)
        ensures
            r == (self.selected_algorithm == EncryptAlgorithm::Chacha20Poly1305),
    {
        self.selected_algorithm == EncryptAlgorithm::Chacha20Poly1305
    }

    /// Whether a run can be started: only once a file is chosen.
    pub fn can_process(&self) -> (r: bool)
        ensures
            r == (self.file_path is Some),
    {
        self.file_path.is_some()
    }

    /// Starts a run on the chosen file: marks the workbench busy and fixes the
    /// job, whose key is the key text's UTF-8 bytes cut or zero-extended to 32
    /// bytes and whose nonce is the nonce text's cut or zero-extended to 24.
    pub fn start_processing(&mut self) -> (job: ProcessJob)
        requires
            old(self).file_path is Some,
        ensures
            final(self).is_processing,
            *final(self) == (MyContext { is_processing: true, ..*old(self) }),
            job.file_path@ == old(self).file_path->Some_0@,
            job.key@ == fit_bytes(encode_utf8(old(self).key@), 32),
            job.nonce@ == fit_bytes(encode_utf8(old(self).nonce@), 24),
            job.key@.len() == KEY_LEN,
            job.nonce@.len() == NONCE_LEN,
            forall|i: int| 0 <= i < KEY_LEN && i < encode_utf8(old(self).key@).len() ==> #[trigger] job.key@[i]
                == encode_utf8(old(self).key@)[i],
            forall|i: int| encode_utf8(old(self).key@).len() <= i < KEY_LEN ==> #[trigger] job.key@[i] == 0u8,
            forall|i: int| 0 <= i < NONCE_LEN && i < encode_utf8(old(self).nonce@).len() ==> #[trigger] job.nonce@[i]
                == encode_utf8(old(self).nonce@)[i],
            forall|i: int| encode_utf8(old(self).nonce@).len() <= i < NONCE_LEN ==> #[trigger] job.nonce@[i] == 0u8,
            job.algorithm == old(self).selected_algorithm,
            job.is_encrypt == (old(self).operation_type == EncryptType::Encryption),
            job.action@ == action_word(job.is_encrypt),
    {
        self.is_processing = true;
        let file_path = match &self.file_path {
            Some(p) => p.clone(),
            None => String::new(),
        };
        let is_encrypt = self.operation_type.is_encrypt();
        let action = if is_encrypt {
            String::from_str("Enkripsi")
        } else {
            String::from_str("Dekripsi")
        };
        let key = fit_text_bytes(self.key.as_str(), KEY_LEN);
        let nonce = fit_text_bytes(self.nonce.as_str(), NONCE_LEN);
        ProcessJob { file_path, key, nonce, algorithm: self.selected_algorithm, is_encrypt, action }
    }

    /// Takes in the messages of a finished run: the first is shown as the
    /// ciphertext (in spaced pairs), the second as the output message, and the
    /// workbench is no longer busy.
    pub fn receive_result(&mut self, message: &Vec<String>)
        requires
            message@.len() >= 2,
        ensures
            final(self).ciphertext@ == spaced_pairs(message@[0]@),
            final(self).output_message@ == message@[1]@,
            *final(self) == (MyContext {
                ciphertext: final(self).ciphertext,
                output_message: final(self).output_message,
                is_processing: false,
                ..*old(self)
            }),
    {
        self.update_cipher_text(message[0].as_str());
        self.update_output_message(message[1].as_str());
        self.is_processing = false;
    }

    /// A click on a cipher in the menu. When the tab is in the dock: if it is
    /// open and the expanded one, nothing is expanded any more; otherwise it
    /// becomes the expanded one and leaves the dock; either way it is no longer
    /// open. When it is not in the dock, it is pushed there and nothing is
    /// expanded.
    pub fn menu_click(&mut self, tab: &str, in_dock: bool) -> (r: MenuAction)
        ensures
            in_dock && old(self).open_tabs@.contains(tab@) && (old(self).expanded_tab matches Some(e) && e@ == tab@)
                ==> r == MenuAction::Nothing && final(self).expanded_tab is None,
            in_dock && !(old(self).open_tabs@.contains(tab@) && (old(self).expanded_tab matches Some(e) && e@ == tab@))
                ==> r == MenuAction::RemoveFromDock && (final(self).expanded_tab matches Some(e) && e@ == tab@),
            in_dock ==> final(self).open_tabs@ == old(self).open_tabs@.remove(tab@),
            !in_dock ==> r == MenuAction::PushToDock && final(self).expanded_tab is None
                && final(self).open_tabs == old(self).open_tabs,
            *final(self) == (MyContext {
                expanded_tab: final(self).expanded_tab,
                open_tabs: final(self).open_tabs,
                ..*old(self)
            }),
    {
        if in_dock {
            let is_open = self.open_tabs.contains(tab);
            let expanded_here = match &self.expanded_tab {
                Some(e) => same_text(e, tab),
                None => false,
            };
            let action = if is_open && expanded_here {
                self.expanded_tab = None;
                MenuAction::Nothing
            } else {
                self.expanded_tab = Some(tab.to_owned());
                MenuAction::RemoveFromDock
            };
            self.open_tabs.remove(tab);
            action
        } else {
            self.expanded_tab = None;
            MenuAction::PushToDock
        }
    }

    /// Records the details of the chosen file at `path`: its location, the MIME
    /// type of its extension (or `application/octet-stream`), its size and its
    /// modification time. For a plain file path the type is that of the text
    /// after the last '.'.
    pub fn set_metadata(&mut self, path: &str, file_size: u64, last_edited: &str)
        ensures
            exists|t: Seq<char>|
                file_type_candidate(t, path@) && final(self).file_metada@ == metadata_spec(
                    path@,
                    t,
                    file_size as nat,
                    last_edited@,
                ),
            plain_file_path(path@) ==> final(self).file_metada@ == metadata_spec(
                path@,
                mime_type_name(after_last(path@, '.')),
                file_size as nat,
                last_edited@,
            ),
            *final(self) == (MyContext { file_metada: final(self).file_metada, ..*old(self) }),
    {
        let extension = path_extension(path);
        let ghost t = if extension is Some {
            mime_type_name(extension->Some_0@)
        } else {
            octet_stream()
        };
        self.file_metada = metadata_text(path, extension, file_size, last_edited);
        assert(file_type_candidate(t, path@));
    }
}


/// When the shown ciphertext is the spaced hex text of some bytes (as after
/// taking in a successful run's messages), the hex table shows each byte as its
/// two hex digits, in order, sixteen to a row.
pub proof fn lemma_table_shows_each_byte(data: Seq<u8>, ctx: MyContext)
    requires
        ctx.ciphertext@ == spaced_pairs(hex_lower(data)),
    ensures
        chunks_of(words(ctx.ciphertext@), TABLE_COLUMNS as nat) == chunks_of(hex_cells(data), TABLE_COLUMNS as nat),
{
    lemma_words_of_spaced_hex(data);
}


/// What one run makes of a file's content with the given cipher, key and
/// nonce bytes.
pub open spec fn run_spec(
    algorithm: EncryptAlgorithm,
    data: Seq<u8>,
    key: Seq<u8>,
    nonce: Seq<u8>,
    encrypt: bool,
) -> Result<Seq<u8>, CryptoError> {
    match algorithm {
        EncryptAlgorithm::Chacha20Poly1305 => chacha_spec(data, key, nonce, encrypt),
        EncryptAlgorithm::Des => Ok(des_spec(data, key, encrypt)),
    }
}

/// Two key texts (and, for XChaCha20-Poly1305, two nonce texts) whose bytes fit
/// to the same job bytes give the same run on the same content; for DES only
/// the first 8 fitted key bytes count and the nonce does not count at all.
pub proof fn lemma_runs_follow_fitted_bytes(
    algorithm: EncryptAlgorithm,
    data: Seq<u8>,
    key1: Seq<char>,
    key2: Seq<char>,
    nonce1: Seq<char>,
    nonce2: Seq<char>,
    encrypt: bool,
)
    requires
        algorithm == EncryptAlgorithm::Chacha20Poly1305 ==> fit_bytes(encode_utf8(key1), 32) == fit_bytes(
            encode_utf8(key2),
            32,
        ) && fit_bytes(encode_utf8(nonce1), 24) == fit_bytes(encode_utf8(nonce2), 24),
        algorithm == EncryptAlgorithm::Des ==> fit_bytes(encode_utf8(key1), 32).take(8) == fit_bytes(
            encode_utf8(key2),
            32,
        ).take(8),
    ensures
        run_spec(algorithm, data, fit_bytes(encode_utf8(key1), 32), fit_bytes(encode_utf8(nonce1), 24), encrypt)
            == run_spec(algorithm, data, fit_bytes(encode_utf8(key2), 32), fit_bytes(encode_utf8(nonce2), 24), encrypt),
{
    if algorithm == EncryptAlgorithm::Des {
        lemma_des_first_key_bytes(data, fit_bytes(encode_utf8(key1), 32), fit_bytes(encode_utf8(key2), 32), encrypt);
    }
}


/// The file name after a last separator is everything that follows it.
proof fn lemma_name_after_separator(prefix: Seq<char>, name: Seq<char>)
    requires
        forall|i: int| 0 <= i < name.len() ==> !is_path_separator(#[trigger] name[i]),
        prefix.len() > 0,
        is_path_separator(prefix.last()),
    ensures
        after_last_separator(prefix + name) == name,
    decreases name.len(),
{
    if name.len() == 0 {
        assert(prefix + name =~= prefix);
    } else {
        assert((prefix + name).drop_last() =~= prefix + name.drop_last());
        assert((prefix + name).last() == name.last());
        lemma_name_after_separator(prefix, name.drop_last());
        assert(name.drop_last().push(name.last()) =~= name);
    }
}

/// The text after the last '.' of a text holding a '.' is not changed by what
/// stands before it.
proof fn lemma_after_last_dot(prefix: Seq<char>, name: Seq<char>)
    requires
        name.contains('.'),
    ensures
        after_last(prefix + name, '.') == after_last(name, '.'),
    decreases name.len(),
{
    assert((prefix + name).last() == name.last());
    if name.last() != '.' {
        let k = choose|k: int| 0 <= k < name.len() && name[k] == '.';
        assert(k < name.len() - 1);
        assert(name.drop_last()[k] == '.');
        assert((prefix + name).drop_last() =~= prefix + name.drop_last());
        lemma_after_last_dot(prefix, name.drop_last());
    }
}

/// A file named `name` (no separators, not starting with '.', holding a '.')
/// in any directory `dir`, joined with '/' or '\\', is a plain file path, on
/// Windows-style and Unix-style paths alike, and its extension is the text after
/// the last '.' of the name; so the file details show that extension's type.
pub proof fn lemma_file_in_directory(dir: Seq<char>, separator: char, name: Seq<char>)
    requires
        is_path_separator(separator),
        !(dir.len() >= 1 && is_path_separator(dir[0]) && (dir.len() == 1 || is_path_separator(dir[1]))),
        forall|i: int| 0 <= i < name.len() ==> !is_path_separator(#[trigger] name[i]),
        name.len() > 0,
        name[0] != '.',
        name.contains('.'),
    ensures
        plain_file_path(dir.push(separator) + name),
        after_last_separator(dir.push(separator) + name) == name,
        after_last(dir.push(separator) + name, '.') == after_last(name, '.'),
{
    let path = dir.push(separator) + name;
    lemma_name_after_separator(dir.push(separator), name);
    lemma_after_last_dot(dir.push(separator), name);
    assert(path.len() > name.len());
    if dir.len() == 0 {
        assert(path[0] == separator);
        assert(path[1] == name[0]);
    } else if dir.len() == 1 {
        assert(path[0] == dir[0]);
        assert(path[1] == separator);
    } else {
        assert(path[0] == dir[0]);
        assert(path[1] == dir[1]);
    }
}

} // verus!
