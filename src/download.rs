//! Deciding what a download is called and whether it is needed.
use vstd::prelude::*;
use crate::placement::{names_include, names_of};
use crate::text::{file_name_from_url, last_segment};

verus! {

/// Why a download could not be planned.
#[derive(PartialEq, Eq, Structural, Clone, Copy, Debug)]
pub enum FetchError {
    /// The URL has no final path segment to name the file after.
    InvalidUrl,
    /// The server answered with a status outside the success range.
    TransferFailed,
}

/// What to do for one download.
pub struct DownloadPlan {
    /// Name of the file in the destination directory.
    pub file_name: String,
    /// Whether to fetch it; `false` means the file present is kept.
    pub fetch: bool,
}

/// Names the download after the URL's last segment, and fetches it unless a
/// file of that name is already present and `force` is off.
pub fn plan_download(url: &str, present: &Vec<String>, force: bool) -> (r: Result<
    DownloadPlan,
    FetchError,
>)
    ensures
        match r {
            Ok(p) => p.file_name@ == last_segment(url@, false) && p.file_name@.len() > 0 && p.fetch
                == (force || !names_of(present@).contains(p.file_name@)),
            Err(e) => e == FetchError::InvalidUrl && last_segment(url@, false).len() == 0,
        },
{
    match file_name_from_url(url) {
        None => Err(FetchError::InvalidUrl),
        Some(name) => {
            let there = names_include(present, name.as_str());
            Ok(DownloadPlan { file_name: name, fetch: force || !there })
        },
    }
}

/// Accepts an HTTP status code in the success range, 200 to 299; any other
/// is a failed transfer, and nothing is written.
pub fn check_transfer_status(code: u16) -> (r: Result<(), FetchError>)
    ensures
        r is Ok <==> 200 <= code < 300,
        r matches Err(e) ==> e == FetchError::TransferFailed,
{
    if 200 <= code && code < 300 {
        Ok(())
    } else {
        Err(FetchError::TransferFailed)
    }
}

/// The name a download is written under until it is complete; it is renamed
/// to `file_name` only then.
pub fn partial_name(file_name: &str) -> (r: String)
    ensures
        r@ == file_name@ + ".part"@,
{
    let mut s = String::from_str(file_name);
    s.append(".part");
    s
}

} // verus!
