use crate::resolve::{
    convert_tauri_url_to_path, percent_decodable, percent_decoded, spec_resolve_decoded,
};
use crate::text::{replace_all, spec_replace_all};
use crate::CoreError;
use vstd::prelude::*;

verus! {

/// The platform the orchestrator runs on, as far as the bundled binaries'
/// naming cares.
#[derive(Clone, Copy, Debug, PartialEq, Eq, Structural)]
pub enum HostOs {
    Windows,
    MacOs,
    Other,
}

/// The bundled transcoder binary for the platform, named
/// `<tool><version>-<os-suffix>`. A platform without a bundled binary is a
/// configuration error, not a recoverable one.
pub fn transcoder_binary(os: HostOs) -> (r: Result<&'static str, CoreError>)
    ensures
        os == HostOs::Windows ==> (r matches Ok(p) && p@ == "./src/binaries/ffmpeg7.0-win.exe"@),
        os == HostOs::MacOs ==> (r matches Ok(p) && p@ == "./src/binaries/ffmpeg7.0-macos"@),
        os == HostOs::Other ==> (r matches Err(e) && e == CoreError::ProcessSpawnError),
{
    match os {
        HostOs::Windows => Ok("./src/binaries/ffmpeg7.0-win.exe"),
        HostOs::MacOs => Ok("./src/binaries/ffmpeg7.0-macos"),
        HostOs::Other => Err(CoreError::ProcessSpawnError),
    }
}

/// The bundled prober binary for the platform, named like the transcoder.
pub fn prober_binary(os: HostOs) -> (r: Result<&'static str, CoreError>)
    ensures
        os == HostOs::Windows ==> (r matches Ok(p) && p@ == "./src/binaries/ffprobe7.0-win.exe"@),
        os == HostOs::MacOs ==> (r matches Ok(p) && p@ == "./src/binaries/ffprobe7.0-macos"@),
        os == HostOs::Other ==> (r matches Err(e) && e == CoreError::ProcessSpawnError),
{
    match os {
        HostOs::Windows => Ok("./src/binaries/ffprobe7.0-win.exe"),
        HostOs::MacOs => Ok("./src/binaries/ffprobe7.0-macos"),
        HostOs::Other => Err(CoreError::ProcessSpawnError),
    }
}

/// Relies on uuid::Uuid::new_v4 and its hyphenated display form: a freshly
/// drawn random identifier, always 36 characters; nothing is promised about
/// which identifier comes back.
#[verifier::external_body]
fn fresh_job_id() -> (r: String)
    ensures
        r@.len() == 36,
{
    uuid::Uuid::new_v4().to_string()
}

/// The progress-file location of one job: under the application data
/// directory, the job identifier embedded in the file name.
pub open spec fn spec_progress_file_path(dir: Seq<char>, id: Seq<char>) -> Seq<char> {
    dir + "/tauri-ffmpeg-progress-"@ + id + ".txt"@
}

pub fn progress_file_path(dir: &str, id: &str) -> (r: String)
    ensures
        r@ == spec_progress_file_path(dir@, id@),
{
    let mut r = String::new();
    r.append(dir);
    r.append("/tauri-ffmpeg-progress-");
    r.append(id);
    r.append(".txt");
    proof {
        assert(r@ =~= spec_progress_file_path(dir@, id@));
    }
    r
}

/// Jobs with distinct identifiers of one length never share a progress
/// file, whatever the data directory: the identifier is embedded whole in
/// the file name.
pub proof fn lemma_progress_paths_distinct(dir: Seq<char>, id1: Seq<char>, id2: Seq<char>)
    requires
        id1.len() == id2.len(),
        id1 != id2,
    ensures
        spec_progress_file_path(dir, id1) != spec_progress_file_path(dir, id2),
{
    let p1 = spec_progress_file_path(dir, id1);
    let p2 = spec_progress_file_path(dir, id2);
    let off = dir.len() + "/tauri-ffmpeg-progress-"@.len();
    if p1 == p2 {
        assert forall|i: int| 0 <= i < id1.len() implies id1[i] == id2[i] by {
            assert(p1[off + i] == id1[i]);
            assert(p2[off + i] == id2[i]);
        }
        assert(id1 =~= id2);
    }
}

/// The transcoded output lands beside the input, under the fixed suffix
/// convention substituted on the resolved input path.
pub open spec fn spec_output_path(input: Seq<char>) -> Seq<char> {
    spec_replace_all(input, ".mp4"@, "-output.mp4"@)
}

pub fn output_path(input: &str) -> (r: String)
    ensures
        r@ == spec_output_path(input@),
{
    proof {
        reveal_strlit(".mp4");
    }
    replace_all(input, ".mp4", "-output.mp4")
}

/// The fixed, non-configurable transcoder argument vector: H.264 video at
/// the capped width with aspect-preserving height, AAC audio at a fixed
/// bitrate, packets flushed per frame so progress flows, the output
/// overwritten, and progress reporting directed at the given file.
pub open spec fn spec_ffmpeg_args(
    input: Seq<char>,
    output: Seq<char>,
    progress: Seq<char>,
) -> Seq<Seq<char>> {
    seq![
        "-i"@,
        input,
        "-hide_banner"@,
        "-flush_packets"@,
        "1"@,
        "-c:v"@,
        "libx264"@,
        "-preset"@,
        "medium"@,
        "-c:a"@,
        "aac"@,
        "-b:a"@,
        "128k"@,
        "-vf"@,
        "scale=1280:-2"@,
        "-y"@,
        output,
        "-progress"@,
        progress,
    ]
}

pub fn ffmpeg_args(input: &str, output: &str, progress: &str) -> (r: Vec<String>)
    ensures
        r.deep_view() == spec_ffmpeg_args(input@, output@, progress@),
{
    let mut v: Vec<String> = Vec::new();
    v.push(String::from_str("-i"));
    v.push(String::from_str(input));
    v.push(String::from_str("-hide_banner"));
    v.push(String::from_str("-flush_packets"));
    v.push(String::from_str("1"));
    v.push(String::from_str("-c:v"));
    v.push(String::from_str("libx264"));
    v.push(String::from_str("-preset"));
    v.push(String::from_str("medium"));
    v.push(String::from_str("-c:a"));
    v.push(String::from_str("aac"));
    v.push(String::from_str("-b:a"));
    v.push(String::from_str("128k"));
    v.push(String::from_str("-vf"));
    v.push(String::from_str("scale=1280:-2"));
    v.push(String::from_str("-y"));
    v.push(String::from_str(output));
    v.push(String::from_str("-progress"));
    v.push(String::from_str(progress));
    proof {
        assert(v.deep_view() =~~= spec_ffmpeg_args(input@, output@, progress@));
    }
    v
}

/// Everything the coordinator decides before either background task starts.
pub struct JobPlan {
    pub input_path: String,
    pub output_path: String,
    pub progress_file_path: String,
    pub job_id: String,
    pub transcode_args: Vec<String>,
}

/// The plan's fields, as functions of the locator, the data directory, and
/// the job identifier.
pub open spec fn plan_matches(p: JobPlan, url: Seq<char>, dir: Seq<char>, id: Seq<char>) -> bool {
    let input = spec_resolve_decoded(percent_decoded(url));
    let out = spec_output_path(input);
    let prog = spec_progress_file_path(dir, id);
    &&& p.input_path@ == input
    &&& p.output_path@ == out
    &&& p.progress_file_path@ == prog
    &&& p.job_id@ == id
    &&& p.transcode_args.deep_view() == spec_ffmpeg_args(input, out, prog)
}

/// Plans one job under a given identifier: resolves the locator, places the
/// progress file, derives the output path, and fixes the argument vector.
/// Succeeds exactly when the locator percent-decodes; nothing else can
/// fail.
pub fn plan_job_with_id(url: &str, app_data_dir: &str, job_id: String) -> (r: Result<
    JobPlan,
    CoreError,
>)
    ensures
        (r is Ok) <==> percent_decodable(url@),
        r matches Ok(p) ==> plan_matches(p, url@, app_data_dir@, job_id@),
        r matches Err(e) ==> e == CoreError::DecodeError,
{
    let input = match convert_tauri_url_to_path(url) {
        Ok(p) => p,
        Err(e) => {
            return Err(e);
        },
    };
    let out = output_path(input.as_str());
    let prog = progress_file_path(app_data_dir, job_id.as_str());
    let args = ffmpeg_args(input.as_str(), out.as_str(), prog.as_str());
    Ok(
        JobPlan {
            input_path: input,
            output_path: out,
            progress_file_path: prog,
            job_id,
            transcode_args: args,
        },
    )
}

/// Plans one job under a freshly drawn random identifier. The identifier is
/// embedded whole in the progress-file location, so plans whose identifiers
/// differ never share one (`lemma_progress_paths_distinct`).
pub fn plan_job(url: &str, app_data_dir: &str) -> (r: Result<JobPlan, CoreError>)
    ensures
        (r is Ok) <==> percent_decodable(url@),
        r matches Ok(p) ==> p.job_id@.len() == 36 && plan_matches(
            p,
            url@,
            app_data_dir@,
            p.job_id@,
        ),
        r matches Err(e) ==> e == CoreError::DecodeError,
{
    let id = fresh_job_id();
    plan_job_with_id(url, app_data_dir, id)
}

} // verus!
