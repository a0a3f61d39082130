use vectorloom_local::models::{
    accept_response, check_received, download_url, needs_fetch, range_header, resume_offset, DownloadPhase,
    ModelKind, ModelManager, RemovalOutcome,
};
use vectorloom_local::BuildTarget;

fn cpu() -> BuildTarget {
    BuildTarget { apple_silicon: false, cuda: false }
}

#[test]
fn model_ids_match_the_api_contract() {
    assert_eq!(ModelKind::from_slug("1b").unwrap(), ModelKind::OneB);
    assert_eq!(ModelKind::from_slug("8b").unwrap(), ModelKind::EightB);
    assert_eq!(ModelKind::from_slug("trace"), None);
    assert_eq!(ModelKind::OneB.slug(), "1b");
    assert_eq!(ModelKind::EightB.slug(), "8b");
    assert_eq!(ModelKind::OneB.label(), "StarVector 1B");
    assert_eq!(ModelKind::EightB.label(), "StarVector 8B");
}

#[test]
fn deleting_a_model_removes_only_its_checkpoint_directory() {
    let mut manager = ModelManager::new("/models".to_owned(), None, false);
    manager.select(ModelKind::OneB);
    assert_eq!(manager.model_dir(ModelKind::OneB), "/models/starvector-1b-im2svg");
    assert!(manager.check_delete(ModelKind::OneB).is_ok());
    assert_eq!(manager.delete(ModelKind::OneB, RemovalOutcome::Removed).unwrap(), Some(ModelKind::EightB));
    assert_eq!(manager.selected(), ModelKind::EightB);
    assert_eq!(manager.delete(ModelKind::OneB, RemovalOutcome::NotFound).unwrap(), None);
    assert_eq!(manager.selected(), ModelKind::EightB);
}

#[test]
fn checkpoint_sizes_match_the_readme() {
    let gib = (1u64 << 30) as f64;
    assert_eq!(ModelKind::OneB.total_bytes(), 5_147_473_154);
    assert_eq!(ModelKind::EightB.total_bytes(), 15_015_826_668);
    assert_eq!(format!("{:.1}", ModelKind::OneB.total_bytes() as f64 / gib), "4.8");
    assert_eq!(format!("{:.1}", ModelKind::EightB.total_bytes() as f64 / gib), "14.0");
    assert_eq!(ModelKind::OneB.file_count(), 12);
    assert_eq!(ModelKind::EightB.file_count(), 13);
    assert_eq!(ModelKind::OneB.bytes_through(ModelKind::OneB.file_count()), ModelKind::OneB.total_bytes());
    assert_eq!(ModelKind::EightB.bytes_through(3), 121 + 715 + 441_705);
}

#[test]
fn start_up_selection_follows_configuration_then_installation() {
    assert_eq!(ModelManager::new(String::new(), Some(" 1b\n".to_owned()), false).selected(), ModelKind::OneB);
    assert_eq!(ModelManager::new(String::new(), Some("8b".to_owned()), true).selected(), ModelKind::EightB);
    assert_eq!(ModelManager::new(String::new(), Some("1B".to_owned()), true).selected(), ModelKind::EightB);
    assert_eq!(ModelManager::new(String::new(), None, true).selected(), ModelKind::OneB);
    assert_eq!(ModelManager::new(String::new(), None, false).selected(), ModelKind::EightB);
}

#[test]
fn paths_are_joined_under_the_root() {
    let m = ModelManager::new("models/".to_owned(), None, false);
    assert_eq!(m.model_dir(ModelKind::EightB), "models/starvector-8b-im2svg");
    assert_eq!(m.selection_file(), "models/.selected-model");
    assert_eq!(m.checkpoint_file(ModelKind::OneB, 1), "models/starvector-1b-im2svg/config.json");
    assert_eq!(m.partial_file(ModelKind::OneB, 5), "models/starvector-1b-im2svg/model.safetensors.index.part");
    assert_eq!(m.partial_file(ModelKind::EightB, 3), "models/starvector-8b-im2svg/model-00001-of-00004.part");
    let bare = ModelManager::new(String::new(), None, false);
    assert_eq!(bare.model_dir(ModelKind::OneB), "starvector-1b-im2svg");
}

#[test]
fn installation_needs_every_file_at_its_size() {
    let m = ModelManager::new(String::new(), None, false);
    let mut sizes: Vec<Option<u64>> = (0..12).map(|i| Some(ModelKind::OneB.file_size(i))).collect();
    assert!(m.is_installed(ModelKind::OneB, &sizes));
    sizes[4] = Some(1);
    assert!(!m.is_installed(ModelKind::OneB, &sizes));
    sizes[4] = None;
    assert!(!m.is_installed(ModelKind::OneB, &sizes));
}

#[test]
fn a_running_download_blocks_a_second_start_and_deletion() {
    let mut m = ModelManager::new(String::new(), None, false);
    assert!(m.start_download(ModelKind::EightB).is_ok());
    let err = m.start_download(ModelKind::EightB).unwrap_err();
    assert_eq!(err.message(), "StarVector 8B download is already running");
    let err = m.check_delete(ModelKind::EightB).unwrap_err();
    assert_eq!(err.message(), "StarVector 8B is still downloading");
    assert!(m.check_delete(ModelKind::OneB).is_ok());
    let err = m.delete(ModelKind::EightB, RemovalOutcome::Removed).unwrap_err();
    assert_eq!(err.message(), "StarVector 8B is still downloading");
    assert_eq!(m.selected(), ModelKind::EightB);
    m.record_failure(ModelKind::EightB, "connect to Hugging Face".to_owned());
    assert!(m.start_download(ModelKind::EightB).is_ok());
}

#[test]
fn catalog_reports_progress_and_installation() {
    let mut m = ModelManager::new(String::new(), None, false);
    let c = m.catalog(false, false, true, cpu());
    assert!(c.model_admin_enabled);
    assert_eq!(c.runtime_device, "CPU · F32");
    assert_eq!(c.models.len(), 2);
    assert_eq!(c.models[0].id, "1b");
    assert_eq!(c.models[0].phase, DownloadPhase::Missing);
    assert_eq!(c.models[1].selected, true);
    assert_eq!(c.models[1].total_bytes, 15_015_826_668);
    m.start_download(ModelKind::OneB).unwrap();
    m.set_progress(ModelKind::OneB, 1_363, Some("merges.txt"));
    let c = m.catalog(false, false, false, cpu());
    assert_eq!(c.models[0].phase, DownloadPhase::Downloading);
    assert_eq!(c.models[0].downloaded_bytes, 1_363);
    assert_eq!(c.models[0].message.as_deref(), Some("Downloading merges.txt"));
    let now = m.record_chunk(ModelKind::OneB, "merges.txt", 1_021, 100, 50);
    assert_eq!(now, 150);
    let c = m.catalog(false, false, false, cpu());
    assert_eq!(c.models[0].downloaded_bytes, 1_171);
    m.finish_download(ModelKind::OneB);
    let c = m.catalog(true, false, false, BuildTarget { apple_silicon: true, cuda: true });
    assert_eq!(c.models[0].phase, DownloadPhase::Ready);
    assert_eq!(c.models[0].downloaded_bytes, 5_147_473_154);
    assert_eq!(c.models[0].message.as_deref(), Some("Checkpoint ready"));
    assert_eq!(c.runtime_device, "Metal · BF16");
    assert!(c.hardware_note.starts_with("NVIDIA CUDA detected."));
    let c = m.catalog(true, false, false, BuildTarget { apple_silicon: false, cuda: true });
    assert!(c.hardware_note.starts_with("NVIDIA CUDA detected."));
    let c = m.catalog(false, true, false, BuildTarget { apple_silicon: true, cuda: false });
    assert_eq!(c.models[1].phase, DownloadPhase::Ready);
    assert!(c.hardware_note.starts_with("Apple Silicon detected."));
}

#[test]
fn downloads_resume_where_the_partial_file_ends() {
    assert_eq!(resume_offset(None, 10), 0);
    assert_eq!(resume_offset(Some(4), 10), 4);
    assert_eq!(resume_offset(Some(40), 10), 10);
    assert_eq!(range_header(0), None);
    assert_eq!(range_header(4096).as_deref(), Some("bytes=4096-"));
    let plan = accept_response(206, "206 Partial Content".to_owned(), 4096, "vocab.json").unwrap();
    assert!(plan.append);
    assert_eq!(plan.received, 4096);
    let plan = accept_response(200, "200 OK".to_owned(), 4096, "vocab.json").unwrap();
    assert!(!plan.append);
    assert_eq!(plan.received, 0);
    let err = accept_response(404, "404 Not Found".to_owned(), 0, "vocab.json").unwrap_err();
    assert_eq!(err.message(), "Hugging Face returned 404 Not Found for vocab.json");
}

#[test]
fn incomplete_downloads_are_reported() {
    assert!(check_received("config.json", 922, 922).is_ok());
    let err = check_received("config.json", 922, 0).unwrap_err();
    assert_eq!(err.message(), "config.json is incomplete: expected 922 bytes, received 0");
    let mut m = ModelManager::new(String::new(), Some("1b".to_owned()), false);
    let err = m.delete(ModelKind::OneB, RemovalOutcome::Failed).unwrap_err();
    assert_eq!(err.message(), "delete local model checkpoint");
    assert_eq!(m.selected(), ModelKind::OneB);
}

#[test]
fn download_urls_are_pinned_to_revisions() {
    assert_eq!(
        download_url(ModelKind::OneB, 0),
        "https://huggingface.co/starvector/starvector-1b-im2svg/resolve/380ab95d25a8e9ab1dc825debe238b4953ae13b9/added_tokens.json"
    );
    assert_eq!(
        download_url(ModelKind::EightB, 12),
        "https://huggingface.co/starvector/starvector-8b-im2svg/resolve/518beea8dcb5f7a37c5911e92d1d62a76beee7f9/vocab.json"
    );
}

#[test]
fn bootstrap_downloads_missing_checkpoints_in_order() {
    let m = ModelManager::new(String::new(), None, false);
    assert_eq!(m.bootstrap_all(false, false), vec![ModelKind::OneB, ModelKind::EightB]);
    assert_eq!(m.bootstrap_all(true, false), vec![ModelKind::EightB]);
    assert!(m.bootstrap_all(true, true).is_empty());
}

#[test]
fn complete_files_are_kept_and_counted() {
    assert!(!needs_fetch(ModelKind::OneB, 0, 99));
    assert!(needs_fetch(ModelKind::OneB, 0, 0));
    assert!(needs_fetch(ModelKind::OneB, 0, 100));
    assert!(needs_fetch(ModelKind::EightB, 3, 4_889_586_775));
    assert!(!needs_fetch(ModelKind::EightB, 3, 4_889_586_776));
    let mut m = ModelManager::new(String::new(), None, false);
    m.start_download(ModelKind::OneB).unwrap();
    m.file_done(ModelKind::OneB, 1);
    let c = m.catalog(false, false, false, cpu());
    assert_eq!(c.models[0].phase, DownloadPhase::Downloading);
    assert_eq!(c.models[0].downloaded_bytes, 1_021);
    let expected = format!("Downloading {}", ModelKind::OneB.file_name(1));
    assert_eq!(c.models[0].message.as_deref(), Some(expected.as_str()));
    m.file_done(ModelKind::OneB, 11);
    let c = m.catalog(false, false, false, cpu());
    assert_eq!(c.models[0].downloaded_bytes, 5_147_473_154);
    assert_eq!(c.models[1].phase, DownloadPhase::Missing);
}

#[test]
fn selection_survives_other_changes() {
    let mut m = ModelManager::new("m".to_owned(), None, false);
    m.select(ModelKind::OneB);
    m.start_download(ModelKind::EightB).unwrap();
    m.record_failure(ModelKind::EightB, "x".to_owned());
    assert!(matches!(m.delete(ModelKind::EightB, RemovalOutcome::NotFound), Ok(None)));
    assert_eq!(m.delete(ModelKind::OneB, RemovalOutcome::Failed).unwrap_err().message(), "delete local model checkpoint");
    assert_eq!(m.selected(), ModelKind::OneB);
    assert!(matches!(m.delete(ModelKind::OneB, RemovalOutcome::Removed), Ok(Some(ModelKind::EightB))));
    assert_eq!(m.selected(), ModelKind::EightB);
    assert_eq!(m.selection_file(), "m/.selected-model");
}
