use local_agents_ops::json::parse_json;
use local_agents_ops::updater::{
    candidate_manager, detect_package_manager, latest_release, upgrade_ended, PackageManager,
    ReleaseReply, UpdateProgressEvent, UpgradeEnd, UpgradeOutput,
};

#[test]
fn winget_is_invoked_non_interactively() {
    let args = PackageManager::Winget.upgrade_args();
    // A prompt from a process with no console never gets answered, so the
    // upgrade would hang rather than fail.
    assert!(args.contains(&"--disable-interactivity"));
    assert!(args.contains(&"--accept-source-agreements"));
    assert!(args.contains(&"--accept-package-agreements"));
    // --exact so a package whose id merely starts with Ollama.Ollama can't be
    // picked up instead.
    assert!(args.contains(&"--exact"));
}

#[test]
fn release_tags_lose_their_v_prefix() {
    let value = parse_json(r#"{"tag_name": "v0.32.4"}"#).unwrap();
    let parsed = latest_release(&ReleaseReply::Read(value));
    assert_eq!(parsed.as_deref(), Ok("0.32.4"));
}

#[test]
fn release_information_can_be_missing() {
    let told = |reply: ReleaseReply| latest_release(&reply).unwrap_err();
    assert_eq!(
        told(ReleaseReply::Unreachable("refused".to_string())),
        "リリース情報を取得できませんでした: refused"
    );
    assert_eq!(
        told(ReleaseReply::Refused("403 Forbidden".to_string())),
        "リリース情報の取得に失敗しました: 403 Forbidden"
    );
    assert_eq!(
        told(ReleaseReply::Unreadable("eof".to_string())),
        "リリース情報を解釈できませんでした: eof"
    );
    assert_eq!(
        told(ReleaseReply::Read(parse_json(r#"{"tag_name": 1}"#).unwrap())),
        "リリース情報に tag_name がありません"
    );
}

#[test]
fn each_system_has_its_package_manager() {
    assert_eq!(candidate_manager("windows"), Some(PackageManager::Winget));
    assert_eq!(candidate_manager("macos"), Some(PackageManager::Homebrew));
    assert_eq!(candidate_manager("linux"), None);
    assert_eq!(detect_package_manager("windows", true), Some(PackageManager::Winget));
    assert_eq!(detect_package_manager("windows", false), None);
    assert_eq!(detect_package_manager("linux", true), None);
    assert_eq!(PackageManager::Homebrew.program(), "brew");
    assert_eq!(PackageManager::Homebrew.label(), "Homebrew");
    assert_eq!(PackageManager::Homebrew.upgrade_args(), vec!["upgrade", "ollama"]);
    assert_eq!(PackageManager::Winget.program(), "winget");
    assert_eq!(PackageManager::Winget.label(), "winget");
    assert_eq!(PackageManager::Winget.upgrade_args().len(), 7);
}

fn done(manager: PackageManager, end: UpgradeEnd) -> (bool, String) {
    match upgrade_ended(manager, &end) {
        UpdateProgressEvent::Done { success, message } => (success, message),
        UpdateProgressEvent::Line { .. } => panic!("an upgrade ends with its outcome"),
    }
}

#[test]
fn every_upgrade_ends_with_its_outcome() {
    let winget = PackageManager::Winget;
    assert_eq!(
        done(winget, UpgradeEnd::Succeeded),
        (true, "更新が完了しました。Ollamaの再起動が必要な場合があります。".to_string())
    );
    assert_eq!(
        done(PackageManager::Homebrew, UpgradeEnd::NotStarted("no such file".to_string())),
        (false, "Homebrew を起動できませんでした: no such file".to_string())
    );
    assert_eq!(
        done(winget, UpgradeEnd::Failed { code: Some(-1978335189), stderr: " \n".to_string() }),
        (false, "winget が更新を完了できませんでした: 終了コード -1978335189".to_string())
    );
    assert_eq!(
        done(winget, UpgradeEnd::Failed { code: None, stderr: String::new() }),
        (false, "winget が更新を完了できませんでした: 終了コード -1".to_string())
    );
    assert_eq!(
        done(winget, UpgradeEnd::Failed { code: Some(1), stderr: " locked \n".to_string() }),
        (false, "winget が更新を完了できませんでした: locked".to_string())
    );
    assert_eq!(
        done(winget, UpgradeEnd::Lost("gone".to_string())),
        (false, "更新プロセスの終了を待てませんでした: gone".to_string())
    );
}

fn forwarded(chunks: &[&[u8]]) -> Vec<String> {
    let mut output = UpgradeOutput::new();
    let mut events = Vec::new();
    for chunk in chunks {
        events.extend(output.feed(chunk));
    }
    events.extend(output.finish());
    events
        .into_iter()
        .map(|event| match event {
            UpdateProgressEvent::Line { text } => text,
            UpdateProgressEvent::Done { .. } => panic!("output is lines"),
        })
        .collect()
}

#[test]
fn a_redrawn_progress_bar_is_forwarded_once() {
    assert_eq!(
        forwarded(&[b"10%\r10%\r 20% \r\n\n20%\r", b"30", b"%\rdone"]),
        vec!["10%", "20%", "30%", "done"]
    );
    // The same line again, after another, is news.
    assert_eq!(forwarded(&[b"a\nb\na\n"]), vec!["a", "b", "a"]);
    assert_eq!(forwarded(&[b"a\na"]), vec!["a"]);
    assert!(forwarded(&[b"\n\r \n"]).is_empty());
    assert!(forwarded(&[]).is_empty());
}

#[test]
fn how_output_is_cut_does_not_matter() {
    let text = "準備中\r進行中 10%\r進行中 20%\n完了".as_bytes();
    let whole = forwarded(&[text]);
    assert_eq!(whole, vec!["準備中", "進行中 10%", "進行中 20%", "完了"]);
    for size in [1, 2, 3, 5] {
        let chunks: Vec<&[u8]> = text.chunks(size).collect();
        assert_eq!(forwarded(&chunks), whole);
    }
}

#[test]
fn forwarded_lines_hold_no_break() {
    let lines = forwarded(&[b"a\xe3\r\xffb \n c\r\n", b"tail\xe3\x81"]);
    assert_eq!(lines, vec!["a\u{fffd}", "\u{fffd}b", "c", "tail\u{fffd}"]);
    assert!(lines.iter().all(|line| !line.contains('\n') && !line.contains('\r')));
    assert!(lines.iter().all(|line| line.trim() == line && !line.is_empty()));
}
