//! The StarVector checkpoints, where they are stored, and the state of their downloads.
use vstd::prelude::*;

use crate::text::{
    concat_str, decimal, decimal_text, is_space, join_path, lemma_rfind_below_bounds, path_join,
    rfind_below, rfind_exec, string_from_range, to_chars, trimmed, trim_bounds,
    trimming_drops_surrounding_whitespace,
};
use crate::{device_label_text, runtime_device_label, same_text, BuildTarget};

verus! {

/// The two StarVector checkpoints.
#[derive(Debug, Clone, Copy, PartialEq, Eq, Hash, Structural)]
pub enum ModelKind {
    OneB,
    EightB,
}

/// The identifier of a model in the API (`1b`, `8b`).
pub open spec fn slug_text(kind: ModelKind) -> Seq<char> {
    match kind {
        ModelKind::OneB => "1b"@,
        ModelKind::EightB => "8b"@,
    }
}

/// The name of a model shown to users.
pub open spec fn label_text(kind: ModelKind) -> Seq<char> {
    match kind {
        ModelKind::OneB => "StarVector 1B"@,
        ModelKind::EightB => "StarVector 8B"@,
    }
}

/// The Hugging Face repository of a model.
pub open spec fn repo_text(kind: ModelKind) -> Seq<char> {
    match kind {
        ModelKind::OneB => "starvector/starvector-1b-im2svg"@,
        ModelKind::EightB => "starvector/starvector-8b-im2svg"@,
    }
}

/// The pinned revision of a model's repository.
pub open spec fn revision_text(kind: ModelKind) -> Seq<char> {
    match kind {
        ModelKind::OneB => "380ab95d25a8e9ab1dc825debe238b4953ae13b9"@,
        ModelKind::EightB => "518beea8dcb5f7a37c5911e92d1d62a76beee7f9"@,
    }
}

/// The files of a model's checkpoint, in download order.
pub open spec fn file_names(kind: ModelKind) -> Seq<Seq<char>> {
    match kind {
        ModelKind::OneB => seq![
            "added_tokens.json"@,
            "config.json"@,
            "merges.txt"@,
            "model-00001-of-00002.safetensors"@,
            "model-00002-of-00002.safetensors"@,
            "model.safetensors.index.json"@,
            "preprocessor_config.json"@,
            "processor_config.json"@,
            "special_tokens_map.json"@,
            "tokenizer.json"@,
            "tokenizer_config.json"@,
            "vocab.json"@,
        ],
        ModelKind::EightB => seq![
            "added_tokens.json"@,
            "config.json"@,
            "merges.txt"@,
            "model-00001-of-00004.safetensors"@,
            "model-00002-of-00004.safetensors"@,
            "model-00003-of-00004.safetensors"@,
            "model-00004-of-00004.safetensors"@,
            "model.safetensors.index.json"@,
            "preprocessor_config.json"@,
            "processor_config.json"@,
            "special_tokens_map.json"@,
            "tokenizer_config.json"@,
            "vocab.json"@,
        ],
    }
}

/// The sizes in bytes of a model's files, in the order of `file_names`.
pub open spec fn file_sizes(kind: ModelKind) -> Seq<u64> {
    match kind {
        ModelKind::OneB => seq![
            99u64,
            922,
            441_810,
            4_995_740_600,
            146_964_720,
            65_681,
            205,
            194,
            1_012,
            3_475_977,
            4_941,
            776_993,
        ],
        ModelKind::EightB => seq![
            121u64,
            715,
            441_705,
            4_889_586_776,
            4_946_285_040,
            4_999_851_312,
            178_570_912,
            105_545,
            394,
            65,
            1_438,
            8_833,
            973_812,
        ],
    }
}

/// The sum of `s`.
pub open spec fn seq_total(s: Seq<u64>) -> int
    decreases s.len(),
{
    if s.len() == 0 {
        0
    } else {
        seq_total(s.drop_last()) + s.last()
    }
}

/// The bytes of the first `count` files of a model.
pub open spec fn bytes_through_spec(kind: ModelKind, count: int) -> int {
    seq_total(file_sizes(kind).take(count))
}

/// The size of a model's whole checkpoint.
pub open spec fn total_size(kind: ModelKind) -> int {
    seq_total(file_sizes(kind))
}

proof fn lemma_seq_total_take(s: Seq<u64>, i: int)
    requires
        0 <= i < s.len(),
    ensures
        seq_total(s.take(i + 1)) == seq_total(s.take(i)) + s[i],
{
    assert(s.take(i + 1).drop_last() =~= s.take(i));
}

proof fn lemma_seq_total_prefix_bound(s: Seq<u64>, i: int)
    requires
        0 <= i <= s.len(),
    ensures
        0 <= seq_total(s.take(i)) <= seq_total(s),
    decreases s.len() - i,
{
    if i < s.len() {
        lemma_seq_total_take(s, i);
        lemma_seq_total_prefix_bound(s, i + 1);
        lemma_seq_total_nonneg(s.take(i));
    } else {
        assert(s.take(i) =~= s);
        lemma_seq_total_nonneg(s);
    }
}

proof fn lemma_seq_total_nonneg(s: Seq<u64>)
    ensures
        seq_total(s) >= 0,
    decreases s.len(),
{
    if s.len() > 0 {
        lemma_seq_total_nonneg(s.drop_last());
    }
}

proof fn lemma_total_sizes()
    ensures
        total_size(ModelKind::OneB) == 5_147_473_154,
        total_size(ModelKind::EightB) == 15_015_826_668,
{
    reveal_with_fuel(seq_total, 14);
}

/// The model that is not `kind`.
pub open spec fn other_model(kind: ModelKind) -> ModelKind {
    match kind {
        ModelKind::OneB => ModelKind::EightB,
        ModelKind::EightB => ModelKind::OneB,
    }
}

/// One file of a checkpoint.
#[derive(Debug, Clone, Copy)]
pub struct ModelFile {
    pub name: &'static str,
    pub size: u64,
}

fn file(name: &'static str, size: u64) -> (f: ModelFile)
    ensures
        f.name == name,
        f.size == size,
{
    ModelFile { name, size }
}

impl ModelKind {
    /// The identifier of the model in the API.
    pub fn slug(self) -> (s: &'static str)
        ensures
            s@ == slug_text(self),
    {
        match self {
            ModelKind::OneB => "1b",
            ModelKind::EightB => "8b",
        }
    }

    /// The name of the model shown to users.
    pub fn label(self) -> (s: &'static str)
        ensures
            s@ == label_text(self),
    {
        match self {
            ModelKind::OneB => "StarVector 1B",
            ModelKind::EightB => "StarVector 8B",
        }
    }

    fn repo(self) -> (s: &'static str)
        ensures
            s@ == repo_text(self),
    {
        match self {
            ModelKind::OneB => "starvector/starvector-1b-im2svg",
            ModelKind::EightB => "starvector/starvector-8b-im2svg",
        }
    }

    fn revision(self) -> (s: &'static str)
        ensures
            s@ == revision_text(self),
    {
        match self {
            ModelKind::OneB => "380ab95d25a8e9ab1dc825debe238b4953ae13b9",
            ModelKind::EightB => "518beea8dcb5f7a37c5911e92d1d62a76beee7f9",
        }
    }

    /// The files of the model's checkpoint, in download order.
    pub fn files(self) -> (files: Vec<ModelFile>)
        ensures
            files@.len() == file_names(self).len(),
            files@.len() == file_sizes(self).len(),
            forall|i: int|
                0 <= i < files@.len() ==> (#[trigger] files@[i]).name@ == file_names(self)[i]
                    && files@[i].size == file_sizes(self)[i],
    {
        match self {
            ModelKind::OneB => vec![
                file("added_tokens.json", 99),
                file("config.json", 922),
                file("merges.txt", 441_810),
                file("model-00001-of-00002.safetensors", 4_995_740_600),
                file("model-00002-of-00002.safetensors", 146_964_720),
                file("model.safetensors.index.json", 65_681),
                file("preprocessor_config.json", 205),
                file("processor_config.json", 194),
                file("special_tokens_map.json", 1_012),
                file("tokenizer.json", 3_475_977),
                file("tokenizer_config.json", 4_941),
                file("vocab.json", 776_993),
            ],
            ModelKind::EightB => vec![
                file("added_tokens.json", 121),
                file("config.json", 715),
                file("merges.txt", 441_705),
                file("model-00001-of-00004.safetensors", 4_889_586_776),
                file("model-00002-of-00004.safetensors", 4_946_285_040),
                file("model-00003-of-00004.safetensors", 4_999_851_312),
                file("model-00004-of-00004.safetensors", 178_570_912),
                file("model.safetensors.index.json", 105_545),
                file("preprocessor_config.json", 394),
                file("processor_config.json", 65),
                file("special_tokens_map.json", 1_438),
                file("tokenizer_config.json", 8_833),
                file("vocab.json", 973_812),
            ],
        }
    }

    /// The number of files in the model's checkpoint.
    pub fn file_count(self) -> (n: usize)
        ensures
            n == file_sizes(self).len(),
            n == file_names(self).len(),
    {
        self.files().len()
    }

    /// The name of the checkpoint file at `index`.
    pub fn file_name(self, index: usize) -> (name: &'static str)
        requires
            index < file_names(self).len(),
        ensures
            name@ == file_names(self)[index as int],
    {
        let files = self.files();
        files[index].name
    }

    /// The size in bytes of the checkpoint file at `index`.
    pub fn file_size(self, index: usize) -> (size: u64)
        requires
            index < file_sizes(self).len(),
        ensures
            size == file_sizes(self)[index as int],
    {
        let files = self.files();
        files[index].size
    }

    /// The bytes of the first `count` checkpoint files.
    pub fn bytes_through(self, count: usize) -> (total: u64)
        requires
            count <= file_sizes(self).len(),
        ensures
            total == bytes_through_spec(self, count as int),
    {
        let files = self.files();
        let ghost sizes = file_sizes(self);
        proof {
            lemma_total_sizes();
            lemma_seq_total_prefix_bound(sizes, count as int);
        }
        let mut total: u64 = 0;
        let mut i: usize = 0;
        assert(sizes.take(0) =~= Seq::<u64>::empty());
        while i < count
            invariant
                i <= count <= sizes.len(),
                sizes == file_sizes(self),
                files@.len() == sizes.len(),
                forall|j: int| 0 <= j < files@.len() ==> (#[trigger] files@[j]).size == sizes[j],
                total == seq_total(sizes.take(i as int)),
                seq_total(sizes) <= 15_015_826_668,
            decreases count - i,
        {
            proof {
                lemma_seq_total_take(sizes, i as int);
                lemma_seq_total_prefix_bound(sizes, i + 1);
            }
            total = total + files[i].size;
            i = i + 1;
        }
        total
    }

    /// The size in bytes of the model's whole checkpoint.
    pub fn total_bytes(self) -> (total: u64)
        ensures
            total == total_size(self),
    {
        let n = self.file_count();
        let total = self.bytes_through(n);
        assert(file_sizes(self).take(n as int) =~= file_sizes(self));
        total
    }

    /// The model that an API identifier names.
    pub fn from_slug(slug: &str) -> (kind: Option<ModelKind>)
        ensures
            kind == (if slug@ == "1b"@ {
                Some(ModelKind::OneB)
            } else if slug@ == "8b"@ {
                Some(ModelKind::EightB)
            } else {
                None
            }),
    {
        if same_text(slug, "1b") {
            Some(ModelKind::OneB)
        } else if same_text(slug, "8b") {
            Some(ModelKind::EightB)
        } else {
            None
        }
    }

    /// The other model.
    pub fn other(self) -> (kind: ModelKind)
        ensures
            kind == other_model(self),
    {
        match self {
            ModelKind::OneB => ModelKind::EightB,
            ModelKind::EightB => ModelKind::OneB,
        }
    }
}

/// Whether a checkpoint is complete, from the sizes found on disk for each of its files in
/// order (`None` where a file cannot be read): every file has its size.
pub open spec fn checkpoint_complete(kind: ModelKind, sizes: Seq<Option<u64>>) -> bool {
    forall|i: int| 0 <= i < sizes.len() ==> #[trigger] sizes[i] == Some(file_sizes(kind)[i])
}

/// Whether checkpoint file `index` must be fetched when `on_disk` bytes stand at its place.
pub open spec fn fetch_needed(kind: ModelKind, index: int, on_disk: u64) -> bool {
    on_disk != file_sizes(kind)[index]
}

/// The length that a download finds on disk for a file whose size read gave `size`.
pub open spec fn length_on_disk(size: Option<u64>) -> u64 {
    match size {
        Some(n) => n,
        None => 0,
    }
}

/// Whether checkpoint file `index` of a model must be fetched, given the length of what is
/// on disk at its place (zero where nothing is): a file of exactly its size is kept.
pub fn needs_fetch(kind: ModelKind, index: usize, on_disk: u64) -> (fetch: bool)
    requires
        index < file_sizes(kind).len(),
    ensures
        fetch == fetch_needed(kind, index as int, on_disk),
{
    on_disk != kind.file_size(index)
}

/// Where a model's download stands.
#[derive(Debug, Clone, Copy, PartialEq, Eq, Structural)]
pub enum DownloadPhase {
    Missing,
    Downloading,
    Ready,
    Failed,
}

/// What the catalog shows for one model.
#[derive(Debug, Clone)]
pub struct ModelInfo {
    pub id: &'static str,
    pub label: &'static str,
    pub selected: bool,
    pub installed: bool,
    pub phase: DownloadPhase,
    pub downloaded_bytes: u64,
    pub total_bytes: u64,
    pub message: Option<String>,
}

/// The models, the device and whether model administration is enabled.
#[derive(Debug, Clone)]
pub struct ModelCatalog {
    pub model_admin_enabled: bool,
    pub models: Vec<ModelInfo>,
    pub runtime_device: &'static str,
    pub hardware_note: &'static str,
}

/// The progress of one model's download.
#[derive(Debug, Clone)]
struct Progress {
    phase: DownloadPhase,
    downloaded_bytes: u64,
    message: Option<String>,
}

/// The mathematical form of a download's progress.
pub struct ProgressState {
    pub phase: DownloadPhase,
    pub downloaded_bytes: u64,
    pub message: Option<Seq<char>>,
}

/// The mathematical form of the model manager: the storage root, the selected model and
/// the progress of each model that has one.
pub struct ManagerState {
    pub root: Seq<char>,
    pub selected: ModelKind,
    pub progress: Map<ModelKind, ProgressState>,
}

/// The text of an optional string.
pub open spec fn opt_text(s: Option<String>) -> Option<Seq<char>> {
    match s {
        Some(t) => Some(t@),
        None => None,
    }
}

spec fn progress_state(p: Progress) -> ProgressState {
    ProgressState { phase: p.phase, downloaded_bytes: p.downloaded_bytes, message: opt_text(p.message) }
}

spec fn slot_map(m: Map<ModelKind, ProgressState>, kind: ModelKind, p: Option<Progress>) -> Map<
    ModelKind,
    ProgressState,
> {
    match p {
        Some(p) => m.insert(kind, progress_state(p)),
        None => m,
    }
}

/// Why a model operation was refused or failed.
#[derive(Debug, Clone)]
pub enum ManagerError {
    /// The model cannot be deleted while it downloads.
    StillDownloading(ModelKind),
    /// A download of the model is already running.
    AlreadyDownloading(ModelKind),
    /// The checkpoint directory could not be removed.
    RemoveFailed,
    /// Hugging Face answered with a status other than success; `status` is its display text.
    HttpStatus { status: String, file: String },
    /// The server sent a different number of bytes than the file has.
    Incomplete { file: String, expected: u64, received: u64 },
}

/// The message of an error.
pub open spec fn error_text(e: ManagerError) -> Seq<char> {
    match e {
        ManagerError::StillDownloading(kind) => label_text(kind) + " is still downloading"@,
        ManagerError::AlreadyDownloading(kind) => label_text(kind)
            + " download is already running"@,
        ManagerError::RemoveFailed => "delete local model checkpoint"@,
        ManagerError::HttpStatus { status, file } => "Hugging Face returned "@ + status@
            + " for "@ + file@,
        ManagerError::Incomplete { file, expected, received } => file@ + " is incomplete: expected "@
            + decimal_text(expected as nat) + " bytes, received "@ + decimal_text(received as nat),
    }
}

impl ManagerError {
    /// The message shown to users for this error.
    pub fn message(&self) -> (m: String)
        ensures
            m@ == error_text(*self),
    {
        match self {
            ManagerError::StillDownloading(kind) => concat_str(kind.label(), " is still downloading"),
            ManagerError::AlreadyDownloading(kind) => concat_str(
                kind.label(),
                " download is already running",
            ),
            ManagerError::RemoveFailed => "delete local model checkpoint".to_owned(),
            ManagerError::HttpStatus { status, file } => {
                let a = concat_str("Hugging Face returned ", status.as_str());
                let b = concat_str(a.as_str(), " for ");
                let r = concat_str(b.as_str(), file.as_str());
                assert(r@ =~= error_text(*self));
                r
            },
            ManagerError::Incomplete { file, expected, received } => {
                let a = concat_str(file.as_str(), " is incomplete: expected ");
                let e = decimal(*expected);
                let b = concat_str(a.as_str(), e.as_str());
                let c = concat_str(b.as_str(), " bytes, received ");
                let d = decimal(*received);
                let r = concat_str(c.as_str(), d.as_str());
                assert(r@ =~= error_text(*self));
                r
            },
        }
    }
}

/// The model selected at start-up: a configured value selects the 1B model when it is `1b`
/// after trimming and the 8B model otherwise; without one, the 1B model is selected when
/// its checkpoint is installed.
pub open spec fn initial_selection(configured: Option<Seq<char>>, one_b_installed: bool) -> ModelKind {
    match configured {
        Some(v) => if trimmed(v) == "1b"@ {
            ModelKind::OneB
        } else {
            ModelKind::EightB
        },
        None => if one_b_installed {
            ModelKind::OneB
        } else {
            ModelKind::EightB
        },
    }
}

/// The directory of a model's checkpoint under the storage root.
pub open spec fn model_dir_text(root: Seq<char>, kind: ModelKind) -> Seq<char> {
    path_join(root, "starvector-"@ + slug_text(kind) + "-im2svg"@)
}

/// A file name without its extension (`Path::file_stem` for the checkpoint file names):
/// everything before the last `.`, unless that `.` starts the name.
pub open spec fn file_stem_text(name: Seq<char>) -> Seq<char> {
    match rfind_below(name, seq!['.'], name.len() as int) {
        Some(i) => if i > 0 {
            name.subrange(0, i)
        } else {
            name
        },
        None => name,
    }
}

/// What the catalog shows for one model of a manager state.
pub open spec fn info_describes(
    info: ModelInfo,
    state: ManagerState,
    kind: ModelKind,
    installed: bool,
) -> bool {
    &&& info.id@ == slug_text(kind)
    &&& info.label@ == label_text(kind)
    &&& info.selected == (kind == state.selected)
    &&& info.installed == installed
    &&& info.total_bytes == total_size(kind)
    &&& if state.progress.contains_key(kind) {
        let p = state.progress[kind];
        &&& info.phase == (if installed {
            DownloadPhase::Ready
        } else {
            p.phase
        })
        &&& info.downloaded_bytes == p.downloaded_bytes
        &&& opt_text(info.message) == p.message
    } else {
        &&& info.phase == (if installed {
            DownloadPhase::Ready
        } else {
            DownloadPhase::Missing
        })
        &&& info.downloaded_bytes == 0
        &&& info.message is None
    }
}

/// The note about the hardware that the catalog shows: a CUDA build is described as the
/// hosted GPU service first, then Apple Silicon, else the CPU host.
pub open spec fn hardware_note_text(target: BuildTarget) -> Seq<char> {
    if target.cuda {
        "NVIDIA CUDA detected. The hosted service defaults to StarVector 8B on a high-memory GPU."@
    } else if target.apple_silicon {
        "Apple Silicon detected. Metal/BF16 is preferred with CPU fallback."@
    } else {
        "This host is not Apple Silicon; StarVector uses CPU and 8B may exceed practical memory or time limits."@
    }
}

/// The state of the checkpoints on disk as far as the server knows it: which model is
/// selected and how each model's download stands. The files themselves are read and written
/// by the caller, which hands the outcomes to these methods.
pub struct ModelManager {
    root: String,
    selected: ModelKind,
    one_b: Option<Progress>,
    eight_b: Option<Progress>,
}

impl View for ModelManager {
    type V = ManagerState;

    closed spec fn view(&self) -> ManagerState {
        ManagerState {
            root: self.root@,
            selected: self.selected,
            progress: slot_map(
                slot_map(Map::empty(), ModelKind::OneB, self.one_b),
                ModelKind::EightB,
                self.eight_b,
            ),
        }
    }
}

/// The state after `kind`'s progress became `p`.
pub open spec fn with_progress(state: ManagerState, kind: ModelKind, p: ProgressState) -> ManagerState {
    ManagerState { progress: state.progress.insert(kind, p), ..state }
}

/// Whether a model's download is running in a state.
pub open spec fn downloading(state: ManagerState, kind: ModelKind) -> bool {
    state.progress.contains_key(kind) && state.progress[kind].phase == DownloadPhase::Downloading
}

/// A change that the manager's methods make to its state.
pub enum ManagerEvent {
    /// `select`.
    Select(ModelKind),
    /// `delete`, after the removal of the model's directory had this outcome.
    Delete(ModelKind, RemovalOutcome),
    /// `start_download`.
    StartDownload(ModelKind),
    /// `set_progress`, `record_chunk` and `file_done`: this many bytes are on disk, with
    /// this message.
    Progress(ModelKind, u64, Option<Seq<char>>),
    /// `record_failure`, with the error's message.
    Fail(ModelKind, Seq<char>),
    /// `finish_download`.
    Finish(ModelKind),
}

/// The state after one event.
pub open spec fn apply_event(state: ManagerState, event: ManagerEvent) -> ManagerState {
    match event {
        ManagerEvent::Select(kind) => ManagerState { selected: kind, ..state },
        ManagerEvent::Delete(kind, removal) => if downloading(state, kind) || removal
            == RemovalOutcome::Failed {
            state
        } else {
            ManagerState {
                root: state.root,
                selected: if state.selected == kind {
                    other_model(kind)
                } else {
                    state.selected
                },
                progress: state.progress.remove(kind),
            }
        },
        ManagerEvent::StartDownload(kind) => if downloading(state, kind) {
            state
        } else {
            with_progress(
                state,
                kind,
                ProgressState {
                    phase: DownloadPhase::Downloading,
                    downloaded_bytes: 0,
                    message: Some("Starting download…"@),
                },
            )
        },
        ManagerEvent::Progress(kind, bytes, message) => with_progress(
            state,
            kind,
            ProgressState { phase: DownloadPhase::Downloading, downloaded_bytes: bytes, message },
        ),
        ManagerEvent::Fail(kind, message) => with_progress(
            state,
            kind,
            ProgressState { phase: DownloadPhase::Failed, downloaded_bytes: 0, message: Some(message) },
        ),
        ManagerEvent::Finish(kind) => with_progress(
            state,
            kind,
            ProgressState {
                phase: DownloadPhase::Ready,
                downloaded_bytes: total_size(kind) as u64,
                message: Some("Checkpoint ready"@),
            },
        ),
    }
}

/// The state after a sequence of events, in order.
pub open spec fn replay(state: ManagerState, events: Seq<ManagerEvent>) -> ManagerState
    decreases events.len(),
{
    if events.len() == 0 {
        state
    } else {
        apply_event(replay(state, events.drop_last()), events.last())
    }
}

/// The model an event concerns, if it concerns a model's files or download.
pub open spec fn event_model(event: ManagerEvent) -> Option<ModelKind> {
    match event {
        ManagerEvent::Select(_) => None,
        ManagerEvent::Delete(kind, _) => Some(kind),
        ManagerEvent::StartDownload(kind) => Some(kind),
        ManagerEvent::Progress(kind, _, _) => Some(kind),
        ManagerEvent::Fail(kind, _) => Some(kind),
        ManagerEvent::Finish(kind) => Some(kind),
    }
}

impl ModelManager {
    /// A manager for the checkpoints under `root`, with the model selection read from the
    /// configuration (`None` when neither the setting nor the selection file gives one) and
    /// whether the 1B checkpoint is installed. No download has progress yet.
    pub fn new(root: String, configured: Option<String>, one_b_installed: bool) -> (m: Self)
        ensures
            m@.root == root@,
            m@.selected == initial_selection(opt_text(configured), one_b_installed),
            m@.progress == Map::<ModelKind, ProgressState>::empty(),
    {
        let selected = match &configured {
            Some(value) => {
                let v = to_chars(value.as_str());
                let (a, b) = trim_bounds(&v, 0, v.len());
                let t = string_from_range(&v, a, b);
                assert(v@.subrange(0, v@.len() as int) =~= v@);
                if same_text(t.as_str(), "1b") {
                    ModelKind::OneB
                } else {
                    ModelKind::EightB
                }
            },
            None => if one_b_installed {
                ModelKind::OneB
            } else {
                ModelKind::EightB
            },
        };
        let m = ModelManager { root, selected, one_b: None, eight_b: None };
        assert(m@.progress =~= Map::<ModelKind, ProgressState>::empty());
        m
    }

    /// The selected model.
    pub fn selected(&self) -> (kind: ModelKind)
        ensures
            kind == self@.selected,
    {
        self.selected
    }

    /// Selects a model; the caller stores `kind.slug()` in `selection_file()`.
    pub fn select(&mut self, kind: ModelKind)
        ensures
            final(self)@.selected == kind,
            final(self)@.root == old(self)@.root,
            final(self)@.progress == old(self)@.progress,
            final(self)@ == apply_event(old(self)@, ManagerEvent::Select(kind)),
    {
        self.selected = kind;
    }

    /// The directory of a model's checkpoint.
    pub fn model_dir(&self, kind: ModelKind) -> (dir: String)
        ensures
            dir@ == model_dir_text(self@.root, kind),
    {
        let a = concat_str("starvector-", kind.slug());
        let name = concat_str(a.as_str(), "-im2svg");
        join_path(self.root.as_str(), name.as_str())
    }

    /// The file that holds the selected model's identifier.
    pub fn selection_file(&self) -> (path: String)
        ensures
            path@ == path_join(self@.root, ".selected-model"@),
    {
        join_path(self.root.as_str(), ".selected-model")
    }

    /// The path of checkpoint file `index` of a model.
    pub fn checkpoint_file(&self, kind: ModelKind, index: usize) -> (path: String)
        requires
            index < file_names(kind).len(),
        ensures
            path@ == path_join(model_dir_text(self@.root, kind), file_names(kind)[index as int]),
    {
        let dir = self.model_dir(kind);
        join_path(dir.as_str(), kind.file_name(index))
    }

    /// The path of the partial download of checkpoint file `index`: the file with its
    /// extension replaced by `part`.
    pub fn partial_file(&self, kind: ModelKind, index: usize) -> (path: String)
        requires
            index < file_names(kind).len(),
        ensures
            path@ == path_join(
                model_dir_text(self@.root, kind),
                file_stem_text(file_names(kind)[index as int]) + ".part"@,
            ),
    {
        let dir = self.model_dir(kind);
        let name = to_chars(kind.file_name(index));
        let dot: Vec<char> = vec!['.'];
        assert(dot@ == seq!['.']);
        proof {
            lemma_rfind_below_bounds(name@, seq!['.'], name@.len() as int);
        }
        let stem_end = match rfind_exec(&name, &dot, name.len()) {
            Some(i) => if i > 0 {
                i
            } else {
                name.len()
            },
            None => name.len(),
        };
        let stem = string_from_range(&name, 0, stem_end);
        assert(name@.subrange(0, name@.len() as int) =~= name@);
        let part = concat_str(stem.as_str(), ".part");
        join_path(dir.as_str(), part.as_str())
    }

    /// Whether a model's checkpoint is complete, from the sizes found on disk for each of its
    /// files in order (`None` where a file cannot be read): every file must have its size.
    pub fn is_installed(&self, kind: ModelKind, sizes: &Vec<Option<u64>>) -> (installed: bool)
        requires
            sizes@.len() == file_sizes(kind).len(),
        ensures
            installed == checkpoint_complete(kind, sizes@),
    {
        let n = kind.file_count();
        let mut i: usize = 0;
        while i < n
            invariant
                n == sizes@.len(),
                n == file_sizes(kind).len(),
                i <= n,
                forall|j: int| 0 <= j < i ==> #[trigger] sizes@[j] == Some(file_sizes(kind)[j]),
            decreases n - i,
        {
            let expected = kind.file_size(i);
            match sizes[i] {
                Some(len) => {
                    if len != expected {
                        return false;
                    }
                },
                None => {
                    return false;
                },
            }
            i = i + 1;
        }
        true
    }

    fn progress_slot(&self, kind: ModelKind) -> (p: &Option<Progress>)
        ensures
            match p {
                Some(p) => self@.progress.contains_key(kind) && self@.progress[kind]
                    == progress_state(*p),
                None => !self@.progress.contains_key(kind),
            },
    {
        match kind {
            ModelKind::OneB => &self.one_b,
            ModelKind::EightB => &self.eight_b,
        }
    }

    fn set_slot(&mut self, kind: ModelKind, p: Option<Progress>)
        ensures
            final(self)@.root == old(self)@.root,
            final(self)@.selected == old(self)@.selected,
            final(self)@.progress == match p {
                Some(p) => old(self)@.progress.insert(kind, progress_state(p)),
                None => old(self)@.progress.remove(kind),
            },
    {
        let ghost before = self@.progress;
        let ghost given = p;
        match kind {
            ModelKind::OneB => {
                self.one_b = p;
            },
            ModelKind::EightB => {
                self.eight_b = p;
            },
        }
        proof {
            match given {
                Some(q) => {
                    assert(self@.progress =~= before.insert(kind, progress_state(q)));
                },
                None => {
                    assert(self@.progress =~= before.remove(kind));
                },
            }
        }
    }

    /// Whether a model's download is running.
    pub fn is_downloading(&self, kind: ModelKind) -> (r: bool)
        ensures
            r == (self@.progress.contains_key(kind) && self@.progress[kind].phase
                == DownloadPhase::Downloading),
    {
        match self.progress_slot(kind) {
            Some(p) => p.phase == DownloadPhase::Downloading,
            None => false,
        }
    }

    /// Whether a model may be deleted: not while it downloads.
    pub fn check_delete(&self, kind: ModelKind) -> (r: Result<(), ManagerError>)
        ensures
            r is Ok <==> !(self@.progress.contains_key(kind) && self@.progress[kind].phase
                == DownloadPhase::Downloading),
            r matches Err(e) ==> e == ManagerError::StillDownloading(kind),
    {
        if self.is_downloading(kind) {
            Err(ManagerError::StillDownloading(kind))
        } else {
            Ok(())
        }
    }

    /// Deletes a model's checkpoint, after the caller tried to remove its directory with
    /// `removal` as the outcome (the caller asks `check_delete` first, so that no directory is
    /// removed while its model downloads). Refused while the model downloads; a directory that
    /// was not there counts as removed. On success the model's progress is forgotten and, when
    /// it was the selected model, the other one is selected and returned, so that the caller
    /// stores the new selection. A refusal changes nothing.
    pub fn delete(&mut self, kind: ModelKind, removal: RemovalOutcome) -> (r: Result<
        Option<ModelKind>,
        ManagerError,
    >)
        ensures
            old(self)@.progress.contains_key(kind) && old(self)@.progress[kind].phase
                == DownloadPhase::Downloading ==> final(self)@ == old(self)@ && (r matches Err(
                ManagerError::StillDownloading(k),
            ) && k == kind),
            !(old(self)@.progress.contains_key(kind) && old(self)@.progress[kind].phase
                == DownloadPhase::Downloading) && removal == RemovalOutcome::Failed ==> final(self)@
                == old(self)@ && (r matches Err(ManagerError::RemoveFailed)),
            !(old(self)@.progress.contains_key(kind) && old(self)@.progress[kind].phase
                == DownloadPhase::Downloading) && removal != RemovalOutcome::Failed ==> {
                &&& final(self)@.root == old(self)@.root
                &&& final(self)@.progress == old(self)@.progress.remove(kind)
                &&& old(self)@.selected == kind ==> final(self)@.selected == other_model(kind)
                    && r == Ok::<Option<ModelKind>, ManagerError>(Some(other_model(kind)))
                &&& old(self)@.selected != kind ==> final(self)@.selected == old(self)@.selected
                    && r == Ok::<Option<ModelKind>, ManagerError>(None)
            },
            final(self)@ == apply_event(old(self)@, ManagerEvent::Delete(kind, removal)),
    {
        if let Err(e) = self.check_delete(kind) {
            return Err(e);
        }
        if removal == RemovalOutcome::Failed {
            return Err(ManagerError::RemoveFailed);
        }
        self.set_slot(kind, None);
        if self.selected == kind {
            let other = kind.other();
            self.selected = other;
            Ok(Some(other))
        } else {
            Ok(None)
        }
    }

    /// The models that start-up downloads, in order, given which checkpoints are installed:
    /// each one that is not.
    pub fn bootstrap_all(&self, one_b_installed: bool, eight_b_installed: bool) -> (kinds: Vec<
        ModelKind,
    >)
        ensures
            kinds@ == (if one_b_installed {
                Seq::<ModelKind>::empty()
            } else {
                seq![ModelKind::OneB]
            }) + (if eight_b_installed {
                Seq::<ModelKind>::empty()
            } else {
                seq![ModelKind::EightB]
            }),
    {
        let mut kinds: Vec<ModelKind> = Vec::new();
        if !one_b_installed {
            kinds.push(ModelKind::OneB);
        }
        if !eight_b_installed {
            kinds.push(ModelKind::EightB);
        }
        assert(kinds@ =~= (if one_b_installed {
            Seq::<ModelKind>::empty()
        } else {
            seq![ModelKind::OneB]
        }) + (if eight_b_installed {
            Seq::<ModelKind>::empty()
        } else {
            seq![ModelKind::EightB]
        }));
        kinds
    }

    /// Starts a model's download: refused while one is running, else the progress becomes
    /// "Starting download…" at zero bytes.
    pub fn start_download(&mut self, kind: ModelKind) -> (r: Result<(), ManagerError>)
        ensures
            r is Ok <==> !(old(self)@.progress.contains_key(kind) && old(self)@.progress[kind].phase
                == DownloadPhase::Downloading),
            r matches Err(e) ==> e == ManagerError::AlreadyDownloading(kind) && final(self)@
                == old(self)@,
            r is Ok ==> final(self)@ == with_progress(
                old(self)@,
                kind,
                ProgressState {
                    phase: DownloadPhase::Downloading,
                    downloaded_bytes: 0,
                    message: Some("Starting download…"@),
                },
            ),
            final(self)@ == apply_event(old(self)@, ManagerEvent::StartDownload(kind)),
    {
        if self.is_downloading(kind) {
            return Err(ManagerError::AlreadyDownloading(kind));
        }
        let p = Progress {
            phase: DownloadPhase::Downloading,
            downloaded_bytes: 0,
            message: Some("Starting download…".to_owned()),
        };
        self.set_slot(kind, Some(p));
        Ok(())
    }

    /// Records that a model's download failed with `message`.
    pub fn record_failure(&mut self, kind: ModelKind, message: String)
        ensures
            final(self)@ == with_progress(
                old(self)@,
                kind,
                ProgressState {
                    phase: DownloadPhase::Failed,
                    downloaded_bytes: 0,
                    message: Some(message@),
                },
            ),
            final(self)@ == apply_event(old(self)@, ManagerEvent::Fail(kind, message@)),
    {
        let p = Progress { phase: DownloadPhase::Failed, downloaded_bytes: 0, message: Some(message) };
        self.set_slot(kind, Some(p));
    }

    /// Records download progress: `bytes` of the checkpoint are on disk, while `file` downloads.
    pub fn set_progress(&mut self, kind: ModelKind, bytes: u64, file: Option<&str>)
        ensures
            final(self)@ == with_progress(
                old(self)@,
                kind,
                ProgressState {
                    phase: DownloadPhase::Downloading,
                    downloaded_bytes: bytes,
                    message: match file {
                        Some(name) => Some("Downloading "@ + name@),
                        None => None,
                    },
                },
            ),
            final(self)@ == apply_event(
                old(self)@,
                ManagerEvent::Progress(
                    kind,
                    bytes,
                    match file {
                        Some(name) => Some("Downloading "@ + name@),
                        None => None,
                    },
                ),
            ),
    {
        let message = match file {
            Some(name) => Some(concat_str("Downloading ", name)),
            None => None,
        };
        let p = Progress { phase: DownloadPhase::Downloading, downloaded_bytes: bytes, message };
        self.set_slot(kind, Some(p));
    }

    /// Records that `chunk_len` more bytes of file `file` arrived, after `received` bytes of it
    /// and `base` bytes of the earlier files; returns the new count of the file's bytes.
    pub fn record_chunk(
        &mut self,
        kind: ModelKind,
        file: &str,
        base: u64,
        received: u64,
        chunk_len: u64,
    ) -> (now: u64)
        requires
            base + received + chunk_len <= u64::MAX,
        ensures
            now == received + chunk_len,
            final(self)@ == with_progress(
                old(self)@,
                kind,
                ProgressState {
                    phase: DownloadPhase::Downloading,
                    downloaded_bytes: (base + now) as u64,
                    message: Some("Downloading "@ + file@),
                },
            ),
            final(self)@ == apply_event(
                old(self)@,
                ManagerEvent::Progress(kind, (base + now) as u64, Some("Downloading "@ + file@)),
            ),
    {
        let now = received + chunk_len;
        self.set_progress(kind, base + now, Some(file));
        now
    }

    /// Records that a model's whole checkpoint is on disk.
    pub fn finish_download(&mut self, kind: ModelKind)
        ensures
            final(self)@ == with_progress(
                old(self)@,
                kind,
                ProgressState {
                    phase: DownloadPhase::Ready,
                    downloaded_bytes: total_size(kind) as u64,
                    message: Some("Checkpoint ready"@),
                },
            ),
            final(self)@ == apply_event(old(self)@, ManagerEvent::Finish(kind)),
    {
        let p = Progress {
            phase: DownloadPhase::Ready,
            downloaded_bytes: kind.total_bytes(),
            message: Some("Checkpoint ready".to_owned()),
        };
        self.set_slot(kind, Some(p));
    }

    /// Records that checkpoint file `index` of a model is on disk, whether it was fetched or
    /// already there: the bytes of it and of the files before it are counted.
    pub fn file_done(&mut self, kind: ModelKind, index: usize)
        requires
            index < file_names(kind).len(),
        ensures
            final(self)@ == with_progress(
                old(self)@,
                kind,
                ProgressState {
                    phase: DownloadPhase::Downloading,
                    downloaded_bytes: bytes_through_spec(kind, index + 1) as u64,
                    message: Some("Downloading "@ + file_names(kind)[index as int]),
                },
            ),
            final(self)@ == apply_event(
                old(self)@,
                ManagerEvent::Progress(
                    kind,
                    bytes_through_spec(kind, index + 1) as u64,
                    Some("Downloading "@ + file_names(kind)[index as int]),
                ),
            ),
    {
        let bytes = kind.bytes_through(index + 1);
        self.set_progress(kind, bytes, Some(kind.file_name(index)));
    }

    fn info(&self, kind: ModelKind, installed: bool) -> (info: ModelInfo)
        ensures
            info_describes(info, self@, kind, installed),
    {
        let slot = self.progress_slot(kind);
        let (phase, downloaded_bytes, message) = match slot {
            Some(p) => (p.phase, p.downloaded_bytes, p.message.clone()),
            None => (DownloadPhase::Missing, 0, None),
        };
        proof {
            if let Some(p) = slot {
                assert(opt_text(message) == opt_text(p.message));
            }
        }
        ModelInfo {
            id: kind.slug(),
            label: kind.label(),
            selected: kind == self.selected,
            installed,
            phase: if installed {
                DownloadPhase::Ready
            } else {
                phase
            },
            downloaded_bytes,
            total_bytes: kind.total_bytes(),
            message,
        }
    }

    /// The catalog of both models, given which checkpoints are installed, whether model
    /// administration is enabled, and the build target.
    pub fn catalog(
        &self,
        one_b_installed: bool,
        eight_b_installed: bool,
        model_admin_enabled: bool,
        target: BuildTarget,
    ) -> (c: ModelCatalog)
        ensures
            c.model_admin_enabled == model_admin_enabled,
            c.models@.len() == 2,
            info_describes(c.models@[0], self@, ModelKind::OneB, one_b_installed),
            info_describes(c.models@[1], self@, ModelKind::EightB, eight_b_installed),
            c.runtime_device@ == device_label_text(target),
            c.hardware_note@ == hardware_note_text(target),
    {
        let mut models: Vec<ModelInfo> = Vec::new();
        models.push(self.info(ModelKind::OneB, one_b_installed));
        models.push(self.info(ModelKind::EightB, eight_b_installed));
        let hardware_note = if target.cuda {
            "NVIDIA CUDA detected. The hosted service defaults to StarVector 8B on a high-memory GPU."
        } else if target.apple_silicon {
            "Apple Silicon detected. Metal/BF16 is preferred with CPU fallback."
        } else {
            "This host is not Apple Silicon; StarVector uses CPU and 8B may exceed practical memory or time limits."
        };
        ModelCatalog {
            model_admin_enabled,
            models,
            runtime_device: runtime_device_label(target),
            hardware_note,
        }
    }
}


/// The download address of checkpoint file `index` of a model at its pinned revision.
pub open spec fn download_url_text(kind: ModelKind, index: int) -> Seq<char> {
    "https://huggingface.co/"@ + repo_text(kind) + "/resolve/"@ + revision_text(kind) + "/"@
        + file_names(kind)[index]
}

/// The download address of checkpoint file `index` of a model.
pub fn download_url(kind: ModelKind, index: usize) -> (url: String)
    requires
        index < file_names(kind).len(),
    ensures
        url@ == download_url_text(kind, index as int),
{
    let a = concat_str("https://huggingface.co/", kind.repo());
    let b = concat_str(a.as_str(), "/resolve/");
    let c = concat_str(b.as_str(), kind.revision());
    let d = concat_str(c.as_str(), "/");
    let url = concat_str(d.as_str(), kind.file_name(index));
    assert(url@ =~= download_url_text(kind, index as int));
    url
}

/// Where a download resumes: the length of the partial file (`None` when there is none),
/// at most the file's size.
pub fn resume_offset(partial_len: Option<u64>, size: u64) -> (offset: u64)
    ensures
        offset == match partial_len {
            Some(len) => if len < size {
                len
            } else {
                size
            },
            None => 0,
        },
{
    let len = match partial_len {
        Some(len) => len,
        None => 0,
    };
    if len < size {
        len
    } else {
        size
    }
}

/// The `Range` header that asks for the rest of a file after `existing` bytes, if any.
pub fn range_header(existing: u64) -> (header: Option<String>)
    ensures
        existing == 0 ==> header is None,
        existing > 0 ==> opt_text(header) == Some("bytes="@ + decimal_text(existing as nat) + "-"@),
{
    if existing > 0 {
        let n = decimal(existing);
        let a = concat_str("bytes=", n.as_str());
        Some(concat_str(a.as_str(), "-"))
    } else {
        None
    }
}

/// How to write a download's body: whether to append to the partial file, and how many of
/// the file's bytes are on disk before the body.
#[derive(Debug, Clone, Copy, PartialEq, Eq, Structural)]
pub struct ResumePlan {
    pub append: bool,
    pub received: u64,
}

/// Decides on Hugging Face's answer to a file request: a status outside 200..=299 fails;
/// otherwise the body is appended when the server sent partial content (206) for a resumed
/// request, and replaces the partial file else.
pub fn accept_response(status: u16, status_text: String, existing: u64, file: &str) -> (r: Result<
    ResumePlan,
    ManagerError,
>)
    ensures
        (200 <= status <= 299) <==> r is Ok,
        r matches Ok(plan) ==> plan.append == (status == 206 && existing > 0) && plan.received == (
        if plan.append {
            existing
        } else {
            0
        }),
        r matches Err(e) ==> error_text(e) == "Hugging Face returned "@ + status_text@ + " for "@
            + file@,
{
    let append = status == 206 && existing > 0;
    if status < 200 || status > 299 {
        return Err(ManagerError::HttpStatus { status: status_text, file: file.to_owned() });
    }
    Ok(ResumePlan {
        append,
        received: if append {
            existing
        } else {
            0
        },
    })
}

/// Checks that a finished download has the file's size.
pub fn check_received(file: &str, expected: u64, received: u64) -> (r: Result<(), ManagerError>)
    ensures
        r is Ok <==> received == expected,
        r matches Err(e) ==> error_text(e) == file@ + " is incomplete: expected "@ + decimal_text(
            expected as nat,
        ) + " bytes, received "@ + decimal_text(received as nat),
{
    if received != expected {
        return Err(ManagerError::Incomplete { file: file.to_owned(), expected, received });
    }
    Ok(())
}

/// What became of removing a checkpoint directory.
#[derive(Debug, Clone, Copy, PartialEq, Eq, Structural)]
pub enum RemovalOutcome {
    Removed,
    NotFound,
    Failed,
}

// Laws.

/// Downloading every file of a checkpoint, one after the other, counts exactly the bytes of
/// the whole checkpoint.
pub proof fn all_files_make_the_whole_checkpoint(kind: ModelKind)
    ensures
        bytes_through_spec(kind, file_sizes(kind).len() as int) == total_size(kind),
{
    assert(file_sizes(kind).take(file_sizes(kind).len() as int) =~= file_sizes(kind));
}

/// The progress reported after each finished file never goes backwards and never passes
/// the size of the whole checkpoint.
pub proof fn download_progress_never_decreases(kind: ModelKind, i: int, j: int)
    requires
        0 <= i <= j <= file_sizes(kind).len(),
    ensures
        bytes_through_spec(kind, i) <= bytes_through_spec(kind, j) <= total_size(kind),
    decreases j - i,
{
    let s = file_sizes(kind);
    lemma_seq_total_prefix_bound(s, j);
    if i < j {
        download_progress_never_decreases(kind, i, j - 1);
        lemma_seq_total_take(s, j - 1);
    }
}

/// An installed checkpoint is shown as ready, whatever its download last reported.
pub proof fn installed_models_are_ready(info: ModelInfo, state: ManagerState, kind: ModelKind)
    requires
        info_describes(info, state, kind, true),
    ensures
        info.phase == DownloadPhase::Ready,
        info.installed,
{
}

/// A model's identifier names it: reading back the identifier gives the model.
pub proof fn slugs_name_their_models(kind: ModelKind)
    ensures
        (if slug_text(kind) == "1b"@ {
            Some(ModelKind::OneB)
        } else if slug_text(kind) == "8b"@ {
            Some(ModelKind::EightB)
        } else {
            None
        }) == Some(kind),
{
    reveal_strlit("1b");
    reveal_strlit("8b");
    assert("1b"@ != "8b"@) by {
        assert("1b"@[0] != "8b"@[0]);
    }
}

/// A checkpoint counts as installed exactly when a download of it, reading the same files,
/// would fetch none of them: complete files are kept, and any other file is fetched again.
pub proof fn installed_exactly_when_nothing_to_fetch(kind: ModelKind, sizes: Seq<Option<u64>>)
    requires
        sizes.len() == file_sizes(kind).len(),
    ensures
        checkpoint_complete(kind, sizes) <==> forall|i: int|
            0 <= i < sizes.len() ==> !#[trigger] fetch_needed(kind, i, length_on_disk(sizes[i])),
{
    assert(forall|i: int| 0 <= i < file_sizes(kind).len() ==> #[trigger] file_sizes(kind)[i] > 0);
    if forall|i: int|
        0 <= i < sizes.len() ==> !#[trigger] fetch_needed(kind, i, length_on_disk(sizes[i])) {
        assert forall|i: int| 0 <= i < sizes.len() implies #[trigger] sizes[i] == Some(
            file_sizes(kind)[i],
        ) by {
            assert(!fetch_needed(kind, i, length_on_disk(sizes[i])));
        }
    }
}

proof fn lemma_replay_push(state: ManagerState, events: Seq<ManagerEvent>, event: ManagerEvent)
    ensures
        replay(state, events.push(event)) == apply_event(replay(state, events), event),
{
    assert(events.push(event).drop_last() =~= events);
}

/// The storage root never changes.
pub proof fn storage_root_never_changes(state: ManagerState, events: Seq<ManagerEvent>)
    ensures
        replay(state, events).root == state.root,
    decreases events.len(),
{
    if events.len() > 0 {
        storage_root_never_changes(state, events.drop_last());
    }
}

/// A selected model stays selected through any later changes that select no model and
/// delete it only where the deletion is refused: while it downloads, or when its files could
/// not be removed.
pub proof fn selection_persists(state: ManagerState, kind: ModelKind, events: Seq<ManagerEvent>)
    requires
        forall|i: int| 0 <= i < events.len() ==> !(#[trigger] events[i] is Select),
        forall|i: int|
            0 <= i < events.len() ==> (#[trigger] events[i] matches ManagerEvent::Delete(k, r) ==> k
                != kind || r == RemovalOutcome::Failed || downloading(
                replay(apply_event(state, ManagerEvent::Select(kind)), events.take(i)),
                k,
            )),
    ensures
        replay(apply_event(state, ManagerEvent::Select(kind)), events).selected == kind,
    decreases events.len(),
{
    let s0 = apply_event(state, ManagerEvent::Select(kind));
    if events.len() > 0 {
        let n = events.len() - 1;
        let rest = events.drop_last();
        assert forall|i: int| 0 <= i < rest.len() implies !(#[trigger] rest[i] is Select) by {
            assert(rest[i] == events[i]);
        }
        assert forall|i: int| 0 <= i < rest.len() implies (#[trigger] rest[i] matches ManagerEvent::Delete(
            k,
            r,
        ) ==> k != kind || r == RemovalOutcome::Failed || downloading(replay(s0, rest.take(i)), k)) by {
            assert(rest[i] == events[i]);
            assert(rest.take(i) =~= events.take(i));
        }
        selection_persists(state, kind, rest);
        assert(!(events[n] is Select));
        assert(events.take(n) =~= rest);
        if let ManagerEvent::Delete(k, r) = events[n] {
            assert(k != kind || r == RemovalOutcome::Failed || downloading(replay(s0, rest), k));
        }
    }
}

/// Changes that concern one model never touch the download progress of another.
pub proof fn other_models_progress_is_untouched(
    state: ManagerState,
    kind: ModelKind,
    events: Seq<ManagerEvent>,
)
    requires
        forall|i: int| 0 <= i < events.len() ==> #[trigger] event_model(events[i]) != Some(kind),
    ensures
        replay(state, events).progress.contains_key(kind) == state.progress.contains_key(kind),
        state.progress.contains_key(kind) ==> replay(state, events).progress[kind]
            == state.progress[kind],
    decreases events.len(),
{
    if events.len() > 0 {
        let rest = events.drop_last();
        assert forall|i: int| 0 <= i < rest.len() implies #[trigger] event_model(rest[i]) != Some(
            kind,
        ) by {
            assert(rest[i] == events[i]);
        }
        other_models_progress_is_untouched(state, kind, rest);
        assert(event_model(events[events.len() - 1]) != Some(kind));
    }
}

/// A download ends, whatever came before, either ready with the whole checkpoint counted or
/// failed with its error and nothing counted.
pub proof fn downloads_end_ready_or_failed(
    state: ManagerState,
    kind: ModelKind,
    events: Seq<ManagerEvent>,
    message: Seq<char>,
)
    ensures
        replay(state, events.push(ManagerEvent::Finish(kind))).progress[kind] == (ProgressState {
            phase: DownloadPhase::Ready,
            downloaded_bytes: total_size(kind) as u64,
            message: Some("Checkpoint ready"@),
        }),
        replay(state, events.push(ManagerEvent::Fail(kind, message))).progress[kind] == (
        ProgressState { phase: DownloadPhase::Failed, downloaded_bytes: 0, message: Some(message) }),
{
    lemma_replay_push(state, events, ManagerEvent::Finish(kind));
    lemma_replay_push(state, events, ManagerEvent::Fail(kind, message));
}

/// The changes of a download that finds each of the first `count` files on disk or fetches
/// it, in order.
pub open spec fn files_done(kind: ModelKind, count: nat) -> Seq<ManagerEvent> {
    Seq::new(
        count,
        |i: int|
            ManagerEvent::Progress(
                kind,
                bytes_through_spec(kind, i + 1) as u64,
                Some("Downloading "@ + file_names(kind)[i]),
            ),
    )
}

/// A download started on a model that was not downloading counts, after each file, the
/// bytes of the files up to it; once every file is done and the download finishes, the
/// whole checkpoint is counted.
pub proof fn complete_download_counts_every_file(
    state: ManagerState,
    kind: ModelKind,
    count: nat,
)
    requires
        !downloading(state, kind),
        count <= file_sizes(kind).len(),
    ensures
        replay(state, seq![ManagerEvent::StartDownload(kind)] + files_done(kind, count)).progress[kind].downloaded_bytes
            == bytes_through_spec(kind, count as int),
        replay(state, seq![ManagerEvent::StartDownload(kind)] + files_done(kind, count)).progress[kind].phase
            == DownloadPhase::Downloading,
        count == file_sizes(kind).len() ==> replay(
            state,
            (seq![ManagerEvent::StartDownload(kind)] + files_done(kind, count)).push(
                ManagerEvent::Finish(kind),
            ),
        ).progress[kind].downloaded_bytes == bytes_through_spec(kind, count as int),
    decreases count,
{
    let start = seq![ManagerEvent::StartDownload(kind)];
    if count == 0 {
        assert(start + files_done(kind, 0) =~= start);
        assert(Seq::<ManagerEvent>::empty().push(ManagerEvent::StartDownload(kind)) =~= start);
        lemma_replay_push(state, Seq::empty(), ManagerEvent::StartDownload(kind));
        assert(file_sizes(kind).take(0) =~= Seq::<u64>::empty());
    } else {
        let prev = (count - 1) as nat;
        complete_download_counts_every_file(state, kind, prev);
        download_progress_never_decreases(kind, count as int, file_sizes(kind).len() as int);
        lemma_total_sizes();
        assert(start + files_done(kind, count) =~= (start + files_done(kind, prev)).push(
            files_done(kind, count)[prev as int],
        ));
        lemma_replay_push(state, start + files_done(kind, prev), files_done(kind, count)[prev as int]);
        let b = bytes_through_spec(kind, count as int);
        assert(0 <= b <= u64::MAX) by {
            lemma_seq_total_prefix_bound(file_sizes(kind), count as int);
        }
        assert(files_done(kind, count)[prev as int] == ManagerEvent::Progress(
            kind,
            b as u64,
            Some("Downloading "@ + file_names(kind)[prev as int]),
        ));
    }
    if count == file_sizes(kind).len() {
        lemma_replay_push(state, start + files_done(kind, count), ManagerEvent::Finish(kind));
        all_files_make_the_whole_checkpoint(kind);
        lemma_total_sizes();
    }
}

/// The two checkpoints weigh about 4.8 GiB and 14.0 GiB.
pub proof fn checkpoint_totals(kind: ModelKind)
    ensures
        kind == ModelKind::OneB ==> total_size(kind) == 5_147_473_154,
        kind == ModelKind::EightB ==> total_size(kind) == 15_015_826_668,
{
    lemma_total_sizes();
}

// Laws of the catalog and of the start-up selection.

/// The hardware note describes a CUDA build as the hosted GPU service, names Apple Silicon
/// only on Apple Silicon builds without CUDA, and on a build with neither it describes a CPU
/// host.
pub proof fn hardware_note_names_the_build(target: BuildTarget)
    ensures
        target.cuda ==> hardware_note_text(target)
            == "NVIDIA CUDA detected. The hosted service defaults to StarVector 8B on a high-memory GPU."@,
        !target.cuda && target.apple_silicon ==> hardware_note_text(target)
            == "Apple Silicon detected. Metal/BF16 is preferred with CPU fallback."@,
        !target.cuda && !target.apple_silicon ==> hardware_note_text(target)
            == "This host is not Apple Silicon; StarVector uses CPU and 8B may exceed practical memory or time limits."@,
        hardware_note_text(target) == "Apple Silicon detected. Metal/BF16 is preferred with CPU fallback."@
            ==> target.apple_silicon && !target.cuda,
{
    reveal_strlit("NVIDIA CUDA detected. The hosted service defaults to StarVector 8B on a high-memory GPU.");
    reveal_strlit("Apple Silicon detected. Metal/BF16 is preferred with CPU fallback.");
    reveal_strlit("This host is not Apple Silicon; StarVector uses CPU and 8B may exceed practical memory or time limits.");
    assert("Apple Silicon detected. Metal/BF16 is preferred with CPU fallback."@[0]
        != "NVIDIA CUDA detected. The hosted service defaults to StarVector 8B on a high-memory GPU."@[0]);
    assert("Apple Silicon detected. Metal/BF16 is preferred with CPU fallback."@[0]
        != "This host is not Apple Silicon; StarVector uses CPU and 8B may exceed practical memory or time limits."@[0]);
}

/// The catalog shows a model as its download last left it: ready once its checkpoint is
/// installed; else the phase, bytes and message that were recorded, or missing with nothing
/// counted when no download was recorded. It names the model, marks the selected one and
/// gives the size of the whole checkpoint.
pub proof fn catalog_shows_recorded_progress(
    info: ModelInfo,
    state: ManagerState,
    kind: ModelKind,
    installed: bool,
)
    requires
        info_describes(info, state, kind, installed),
    ensures
        installed ==> info.phase == DownloadPhase::Ready,
        !installed && state.progress.contains_key(kind) ==> info.phase
            == state.progress[kind].phase,
        !installed && !state.progress.contains_key(kind) ==> info.phase == DownloadPhase::Missing,
        state.progress.contains_key(kind) ==> info.downloaded_bytes
            == state.progress[kind].downloaded_bytes && opt_text(info.message)
            == state.progress[kind].message,
        !state.progress.contains_key(kind) ==> info.downloaded_bytes == 0 && info.message is None,
        info.installed == installed,
        info.selected <==> state.selected == kind,
        info.total_bytes == total_size(kind),
        info.id@ == slug_text(kind) && info.label@ == label_text(kind),
{
}

/// A model whose download failed, and whose checkpoint is not installed, is shown failed with
/// the error's message and no bytes counted; one whose download finished is shown ready with
/// the whole checkpoint counted.
pub proof fn catalog_after_the_last_download_step(
    info: ModelInfo,
    state: ManagerState,
    kind: ModelKind,
    events: Seq<ManagerEvent>,
    message: Seq<char>,
    installed: bool,
)
    ensures
        info_describes(info, replay(state, events.push(ManagerEvent::Fail(kind, message))), kind, false)
            ==> info.phase == DownloadPhase::Failed && info.downloaded_bytes == 0 && opt_text(
            info.message,
        ) == Some(message),
        info_describes(info, replay(state, events.push(ManagerEvent::Finish(kind))), kind, installed)
            ==> info.phase == DownloadPhase::Ready && info.downloaded_bytes == total_size(kind)
            && opt_text(info.message) == Some("Checkpoint ready"@),
{
    downloads_end_ready_or_failed(state, kind, events, message);
    lemma_replay_push(state, events, ManagerEvent::Fail(kind, message));
    lemma_replay_push(state, events, ManagerEvent::Finish(kind));
    lemma_total_sizes();
}

/// At start-up a configured model wins: `1b`, with any surrounding whitespace, selects the
/// 1B model and any other value the 8B model; without one, the 1B model is selected exactly
/// when its checkpoint is installed.
pub proof fn start_up_selection(
    configured: Option<Seq<char>>,
    one_b_installed: bool,
    pre: Seq<char>,
    post: Seq<char>,
)
    ensures
        configured matches Some(v) ==> (initial_selection(configured, one_b_installed)
            == ModelKind::OneB <==> trimmed(v) == "1b"@),
        configured is None ==> (initial_selection(configured, one_b_installed) == ModelKind::OneB
            <==> one_b_installed),
        initial_selection(Some("1b"@), one_b_installed) == ModelKind::OneB,
        initial_selection(Some("8b"@), one_b_installed) == ModelKind::EightB,
        (forall|i: int| 0 <= i < pre.len() ==> is_space(#[trigger] pre[i])) && (forall|i: int|
            0 <= i < post.len() ==> is_space(#[trigger] post[i])) ==> initial_selection(
            Some(pre + "1b"@ + post),
            one_b_installed,
        ) == ModelKind::OneB,
{
    reveal_strlit("1b");
    reveal_strlit("8b");
    if (forall|i: int| 0 <= i < pre.len() ==> is_space(#[trigger] pre[i])) && (forall|i: int|
        0 <= i < post.len() ==> is_space(#[trigger] post[i])) {
        trimming_drops_surrounding_whitespace(pre, "1b"@, post);
    }
    assert(trimmed("1b"@) == "1b"@);
    assert(trimmed("8b"@) == "8b"@);
    assert("8b"@ != "1b"@) by {
        assert("8b"@[0] != "1b"@[0]);
    }
}

/// Each model has a directory of its own under the storage root.
pub proof fn models_have_separate_directories(root: Seq<char>)
    ensures
        model_dir_text(root, ModelKind::OneB) != model_dir_text(root, ModelKind::EightB),
{
    reveal_strlit("1b");
    reveal_strlit("8b");
    reveal_strlit("starvector-");
    reveal_strlit("-im2svg");
    let a = "starvector-"@ + slug_text(ModelKind::OneB) + "-im2svg"@;
    let b = "starvector-"@ + slug_text(ModelKind::EightB) + "-im2svg"@;
    assert(a.len() == b.len());
    assert(a[11] != b[11]);
    let (x, y) = (model_dir_text(root, ModelKind::OneB), model_dir_text(root, ModelKind::EightB));
    assert(x.len() == y.len());
    if root.len() == 0 {
        assert(x[11] != y[11]);
    } else if root.last() == '/' {
        assert(x[root.len() + 11 as int] == a[11]);
        assert(y[root.len() + 11 as int] == b[11]);
    } else {
        assert(x[root.len() + 12 as int] == a[11]);
        assert(y[root.len() + 12 as int] == b[11]);
    }
}

/// Each checkpoint file is fetched from Hugging Face, from the model's repository at its
/// pinned revision, under the file's own name.
pub proof fn download_urls_are_pinned(kind: ModelKind, index: int)
    requires
        0 <= index < file_names(kind).len(),
    ensures
        download_url_text(kind, index).subrange(0, 23) == "https://huggingface.co/"@,
        download_url_text(kind, index).subrange(23, 23 + repo_text(kind).len() as int) == repo_text(kind),
        download_url_text(kind, index).subrange(
            23 + repo_text(kind).len() as int + 9,
            23 + repo_text(kind).len() as int + 9 + 40,
        ) == revision_text(kind),
        download_url_text(kind, index).subrange(
            download_url_text(kind, index).len() - file_names(kind)[index].len(),
            download_url_text(kind, index).len() as int,
        ) == file_names(kind)[index],
{
    reveal_strlit("https://huggingface.co/");
    reveal_strlit("/resolve/");
    reveal_strlit("/");
    reveal_strlit("starvector/starvector-1b-im2svg");
    reveal_strlit("starvector/starvector-8b-im2svg");
    reveal_strlit("380ab95d25a8e9ab1dc825debe238b4953ae13b9");
    reveal_strlit("518beea8dcb5f7a37c5911e92d1d62a76beee7f9");
    let u = download_url_text(kind, index);
    let r = repo_text(kind);
    let v = revision_text(kind);
    let n = file_names(kind)[index];
    assert(u =~= "https://huggingface.co/"@ + r + "/resolve/"@ + v + "/"@ + n);
    assert(u.subrange(0, 23) =~= "https://huggingface.co/"@);
    assert(u.subrange(23, 23 + r.len() as int) =~= r);
    assert(u.subrange(23 + r.len() as int + 9, 23 + r.len() as int + 9 + 40) =~= v);
    assert(u.subrange(u.len() - n.len(), u.len() as int) =~= n);
}

} // verus!
