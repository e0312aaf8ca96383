use vstd::prelude::*;
use vstd::string::*;

verus! {

/// What `url::Url::parse` makes of `resource` and then `path_segments`
/// gives: nothing where it does not parse as a URL; `Some(None)` for a URL
/// that cannot be a base; otherwise the segments of its path.
pub uninterp spec fn url_path_segments(resource: Seq<char>) -> Option<Option<Seq<Seq<char>>>>;

/// Parses `resource` with `url::Url::parse` and splits its path with
/// `path_segments`. Claimed: the result is `url_path_segments` of the text.
#[verifier::external_body]
fn parse_path_segments(resource: &str) -> (r: Option<Option<Vec<String>>>)
    ensures
        r.deep_view() == url_path_segments(resource@),
{
    match url::Url::parse(resource) {
        Ok(url) => Some(url.path_segments().map(|segs| segs.map(|seg| seg.to_string()).collect())),
        Err(_) => None,
    }
}

/// The last of a list of path segments, if there is one.
pub open spec fn last_segment(segments: Seq<Seq<char>>) -> Option<Seq<char>> {
    if segments.len() == 0 {
        None
    } else {
        Some(segments.last())
    }
}

/// The file name that a download is saved under: the last segment of the
/// resource's path.
pub fn filename_from_segments(segments: &Vec<String>) -> (r: Option<String>)
    ensures
        r.deep_view() == last_segment(segments.deep_view()),
{
    let n = segments.len();
    if n == 0 {
        None
    } else {
        Some(segments[n - 1].clone())
    }
}

/// The file name that the download of `resource` is saved under: the last
/// segment of its path; nothing where it is not a URL.
pub fn resource_filename(resource: &str) -> (r: Option<String>)
    requires
        url_path_segments(resource@) != Some(None::<Seq<Seq<char>>>),
    ensures
        match url_path_segments(resource@) {
            None => r is None,
            Some(None) => false,
            Some(Some(segments)) => r.deep_view() == last_segment(segments),
        },
{
    match parse_path_segments(resource) {
        None => None,
        Some(None) => None,
        Some(Some(segments)) => filename_from_segments(&segments),
    }
}

/// Like `resource_filename`, for any text: nothing where `resource` is a
/// URL that cannot be a base (which has no path to take a name from),
/// otherwise what `resource_filename` gives.
pub fn checked_resource_filename(resource: &str) -> (r: Option<Option<String>>)
    ensures
        match url_path_segments(resource@) {
            None => r == Some(None::<String>),
            Some(None) => r is None,
            Some(Some(segments)) => r is Some && r->0.deep_view() == last_segment(segments),
        },
{
    match parse_path_segments(resource) {
        None => Some(None),
        Some(None) => None,
        Some(Some(_)) => Some(resource_filename(resource)),
    }
}

/// The name of the file that a process's output is written to: its name
/// with ".log" after it.
pub fn log_file_name(name: &str) -> (r: String)
    ensures
        r@ == name@ + ".log"@,
{
    let mut r = String::new();
    r.append(name);
    r.append(".log");
    r
}

/// The shell that runs a process's command, and the option that hands it
/// the command: `cmd /C` on Windows, `sh -c` elsewhere.
pub fn shell_for(windows: bool) -> (r: (&'static str, &'static str))
    ensures
        windows ==> r.0@ == "cmd"@ && r.1@ == "/C"@,
        !windows ==> r.0@ == "sh"@ && r.1@ == "-c"@,
{
    if windows {
        ("cmd", "/C")
    } else {
        ("sh", "-c")
    }
}

} // verus!
