//! Decisions of the binary-acquisition helper: which prebuilt archive fits
//! a machine, where to get it, and how download progress is reported.

use vstd::prelude::*;

use crate::command::Platform;

verus! {

/// The prebuilt Windows archives to choose between.
#[derive(Clone, Copy, Debug, PartialEq, Eq, Structural)]
pub enum WindowsBinary {
    CudaV11,
    CudaV12,
    AvxBasic,
    Avx2,
    Avx512,
}

/// Picks the Windows archive for a machine: a CUDA build when a matching
/// toolkit was detected, else the widest supported vector extension, else
/// the baseline build.
pub fn choose_windows_binary(cuda_version: Option<u8>, has_avx512: bool, has_avx2: bool) -> (r:
    Option<WindowsBinary>)
    ensures
        ({
            let picked = match cuda_version {
                Some(v) => if 11 <= v && v < 12 {
                    WindowsBinary::CudaV11
                } else if v >= 12 {
                    WindowsBinary::CudaV12
                } else if has_avx512 {
                    WindowsBinary::Avx512
                } else if has_avx2 {
                    WindowsBinary::Avx2
                } else {
                    WindowsBinary::AvxBasic
                },
                None => if has_avx512 {
                    WindowsBinary::Avx512
                } else if has_avx2 {
                    WindowsBinary::Avx2
                } else {
                    WindowsBinary::AvxBasic
                },
            };
            r == Some(picked)
        }),
{
    match cuda_version {
        Some(v) => {
            if 11 <= v && v < 12 {
                Some(WindowsBinary::CudaV11)
            } else if v >= 12 {
                Some(WindowsBinary::CudaV12)
            } else if has_avx512 {
                Some(WindowsBinary::Avx512)
            } else if has_avx2 {
                Some(WindowsBinary::Avx2)
            } else {
                Some(WindowsBinary::AvxBasic)
            }
        },
        None => {
            if has_avx512 {
                Some(WindowsBinary::Avx512)
            } else if has_avx2 {
                Some(WindowsBinary::Avx2)
            } else {
                Some(WindowsBinary::AvxBasic)
            }
        },
    }
}

/// Base of the release downloads.
pub open spec fn spec_release_base() -> Seq<char> {
    "https://github.com/ggerganov/llama.cpp/releases/download/b4164/"@
}

/// Where the archive for a platform and chosen Windows build is fetched
/// from; on macOS, the package-manager command used instead.
pub open spec fn spec_download_url(platform: Platform, binary: Option<WindowsBinary>) -> Option<
    Seq<char>,
> {
    match platform {
        Platform::MacOs => Some("brew install llama.cpp"@),
        Platform::Windows => match binary {
            Some(WindowsBinary::CudaV11) => Some(
                spec_release_base() + "llama-b4163-bin-win-cuda-cu11.7.1-x64.zip"@,
            ),
            Some(WindowsBinary::CudaV12) => Some(
                spec_release_base() + "llama-b4163-bin-win-cuda-cu12.2.0-x64.zip"@,
            ),
            Some(WindowsBinary::AvxBasic) => Some(
                spec_release_base() + "llama-b4163-bin-win-avx-x64.zip"@,
            ),
            Some(WindowsBinary::Avx2) => Some(
                spec_release_base() + "llama-b4163-bin-win-avx2-x64.zip"@,
            ),
            Some(WindowsBinary::Avx512) => Some(
                spec_release_base() + "llama-b4163-bin-win-avx512-x64.zip"@,
            ),
            None => None,
        },
        Platform::Linux => Some(spec_release_base() + "llama-b4164-bin-ubuntu-x64.zip"@),
    }
}

/// The download source for a platform and chosen Windows build.
pub fn get_download_url(platform: &Platform, binary: Option<&WindowsBinary>) -> (r: Option<String>)
    ensures
        ({
            let b = match binary {
                Some(w) => Some(*w),
                None => None,
            };
            match r {
                Some(url) => spec_download_url(*platform, b) == Some(url@),
                None => spec_download_url(*platform, b) is None,
            }
        }),
{
    match platform {
        Platform::MacOs => Some("brew install llama.cpp".to_owned()),
        Platform::Windows => {
            match binary {
                Some(w) => {
                    let mut url =
                        "https://github.com/ggerganov/llama.cpp/releases/download/b4164/".to_owned();
                    match w {
                        WindowsBinary::CudaV11 => {
                            url.append("llama-b4163-bin-win-cuda-cu11.7.1-x64.zip");
                        },
                        WindowsBinary::CudaV12 => {
                            url.append("llama-b4163-bin-win-cuda-cu12.2.0-x64.zip");
                        },
                        WindowsBinary::AvxBasic => {
                            url.append("llama-b4163-bin-win-avx-x64.zip");
                        },
                        WindowsBinary::Avx2 => {
                            url.append("llama-b4163-bin-win-avx2-x64.zip");
                        },
                        WindowsBinary::Avx512 => {
                            url.append("llama-b4163-bin-win-avx512-x64.zip");
                        },
                    }
                    Some(url)
                },
                None => None,
            }
        },
        Platform::Linux => {
            let mut url =
                "https://github.com/ggerganov/llama.cpp/releases/download/b4164/".to_owned();
            url.append("llama-b4164-bin-ubuntu-x64.zip");
            Some(url)
        },
    }
}

/// A point-in-time view of one download.
pub struct DownloadProgress {
    /// Announced size in bytes, when the server gave one.
    pub total_size: Option<u64>,
    /// Bytes written so far.
    pub downloaded_size: u64,
    /// A download is in flight.
    pub is_downloading: bool,
    /// Name of the file being fetched.
    pub filename: Option<String>,
    /// Rounded percentage, when the total is known.
    pub percentage: Option<u8>,
}

/// The rounded percentage a download stands at: `downloaded / total`,
/// rounded half up and saturated at the byte range; a zero total counts as
/// complete only when nothing was expected.
pub open spec fn spec_percentage(total: u64, downloaded: u64) -> u8 {
    if total == 0 {
        if downloaded == 0 {
            0
        } else {
            255
        }
    } else {
        let v = (200 * downloaded + total) / (2 * total);
        if v > 255 {
            255
        } else {
            v as u8
        }
    }
}

/// Computes the rounded, saturated percentage of a download.
pub fn download_percentage(total: u64, downloaded: u64) -> (r: u8)
    ensures
        r == spec_percentage(total, downloaded),
{
    if total == 0 {
        if downloaded == 0 {
            0
        } else {
            255
        }
    } else {
        let num: u128 = 200u128 * (downloaded as u128) + (total as u128);
        let den: u128 = 2u128 * (total as u128);
        let v: u128 = num / den;
        proof {
            assert(num == 200 * (downloaded as int) + total);
            assert(den == 2 * (total as int));
            assert(v == (200 * (downloaded as int) + total) / (2 * (total as int)));
        }
        if v > 255 {
            255
        } else {
            v as u8
        }
    }
}

/// Assembles the progress report for the caller-facing query.
pub fn progress_report(
    total_size: Option<u64>,
    downloaded_size: u64,
    is_downloading: bool,
    filename: Option<String>,
) -> (r: DownloadProgress)
    ensures
        r.total_size == total_size,
        r.downloaded_size == downloaded_size,
        r.is_downloading == is_downloading,
        crate::command::opt_view(r.filename) == crate::command::opt_view(filename),
        match total_size {
            Some(t) => r.percentage == Some(spec_percentage(t, downloaded_size)),
            None => r.percentage is None,
        },
{
    let percentage = match &total_size {
        Some(t) => Some(download_percentage(*t, downloaded_size)),
        None => None,
    };
    DownloadProgress { total_size, downloaded_size, is_downloading, filename, percentage }
}

} // verus!
