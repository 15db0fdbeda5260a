use transcode_orchestrator::job::{
    output_path, plan_job, plan_job_with_id, prober_binary, progress_file_path,
    transcoder_binary, HostOs,
};
use transcode_orchestrator::CoreError;

#[test]
fn output_path_substitutes_the_suffix_convention() {
    assert_eq!(output_path("C\\videos\\clip.mp4"), "C\\videos\\clip-output.mp4".to_string());
    assert_eq!(output_path("a.mp4"), "a-output.mp4".to_string());
    // Every occurrence is substituted, as the original substitution does.
    assert_eq!(output_path("a.mp4b.mp4"), "a-output.mp4b-output.mp4".to_string());
    assert_eq!(output_path("clip.mkv"), "clip.mkv".to_string());
}

#[test]
fn progress_file_path_embeds_directory_and_identifier() {
    assert_eq!(
        progress_file_path("/data", "abc"),
        "/data/tauri-ffmpeg-progress-abc.txt".to_string()
    );
}

#[test]
fn binaries_follow_the_platform_naming_pattern() {
    assert_eq!(transcoder_binary(HostOs::Windows), Ok("./src/binaries/ffmpeg7.0-win.exe"));
    assert_eq!(transcoder_binary(HostOs::MacOs), Ok("./src/binaries/ffmpeg7.0-macos"));
    assert_eq!(transcoder_binary(HostOs::Other), Err(CoreError::ProcessSpawnError));
    assert_eq!(prober_binary(HostOs::Windows), Ok("./src/binaries/ffprobe7.0-win.exe"));
    assert_eq!(prober_binary(HostOs::MacOs), Ok("./src/binaries/ffprobe7.0-macos"));
    assert_eq!(prober_binary(HostOs::Other), Err(CoreError::ProcessSpawnError));
}

#[test]
fn a_plan_fixes_paths_and_arguments() {
    let p = plan_job_with_id(
        "http://asset.localhost/C%5Cvideos%5Cclip.mp4",
        "/data",
        "id-1".to_string(),
    )
    .unwrap();
    assert_eq!(p.input_path, "C\\videos\\clip.mp4".to_string());
    assert_eq!(p.output_path, "C\\videos\\clip-output.mp4".to_string());
    assert_eq!(p.progress_file_path, "/data/tauri-ffmpeg-progress-id-1.txt".to_string());
    assert_eq!(p.job_id, "id-1".to_string());
    assert_eq!(p.transcode_args.len(), 19);
    assert_eq!(p.transcode_args[0], "-i".to_string());
    assert_eq!(p.transcode_args[1], "C\\videos\\clip.mp4".to_string());
    assert_eq!(p.transcode_args[14], "scale=1280:-2".to_string());
    assert_eq!(p.transcode_args[16], "C\\videos\\clip-output.mp4".to_string());
    assert_eq!(p.transcode_args[17], "-progress".to_string());
    assert_eq!(
        p.transcode_args[18],
        "/data/tauri-ffmpeg-progress-id-1.txt".to_string()
    );
}

#[test]
fn an_invalid_locator_aborts_the_plan() {
    assert!(matches!(
        plan_job_with_id("%FF", "/data", "id".to_string()),
        Err(CoreError::DecodeError)
    ));
    assert!(matches!(plan_job("%FF", "/data"), Err(CoreError::DecodeError)));
}

#[test]
fn fresh_plans_never_share_a_progress_file() {
    let a = plan_job("clip.mp4", "/data").unwrap();
    let b = plan_job("clip.mp4", "/data").unwrap();
    assert_eq!(a.job_id.len(), 36);
    assert_eq!(b.job_id.len(), 36);
    assert_ne!(a.job_id, b.job_id);
    assert_ne!(a.progress_file_path, b.progress_file_path);
}
