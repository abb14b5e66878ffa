//! The clipboard adapter's decision logic.
//!
//! Delivering an image to the platform clipboard is outside work: opening a
//! clipboard handle, spawning a copy tool, feeding it bytes. The host
//! performs those actions and hands each outcome back; everything that is
//! decided — which strategy a platform uses, what follows each outcome,
//! which notification the user sees, how long the clipboard is held, how a
//! Windows bitmap is built — stands here, verified, as plain functions from
//! outcome to next step.

use crate::error::Error;
use crate::raster::RenderedImage;
use vstd::arithmetic::div_mod::{
    lemma_fundamental_div_mod, lemma_fundamental_div_mod_converse, lemma_mod_bound,
};
use vstd::prelude::*;
use vstd::string::*;

verus! {

/// The build or runtime target the adapter runs on.
#[derive(Debug, Clone, Copy, PartialEq, Eq, Structural)]
pub enum Platform {
    Linux,
    MacOs,
    Windows,
    Other,
}

/// The strategy a platform's clipboard delivery uses.
#[derive(Debug, Clone, Copy, PartialEq, Eq, Structural)]
pub enum Strategy {
    /// Shell out to a Wayland copy tool, falling back to an X11 one.
    ToolChain,
    /// Hand a temporary PNG file's path to the native pasteboard.
    Pasteboard,
    /// Convert to an opaque RGB bitmap and write the native clipboard.
    WinClipboard,
    /// No clipboard facility: fail, deliberately and without crashing.
    Unsupported,
}

/// Selects the strategy for a platform. Total: every platform maps to
/// exactly one strategy, and an unrecognized one to the degraded failure.
pub fn strategy_for(platform: Platform) -> (s: Strategy)
    ensures
        platform is Linux ==> s is ToolChain,
        platform is MacOs ==> s is Pasteboard,
        platform is Windows ==> s is WinClipboard,
        platform is Other ==> s is Unsupported,
{
    match platform {
        Platform::Linux => Strategy::ToolChain,
        Platform::MacOs => Strategy::Pasteboard,
        Platform::Windows => Strategy::WinClipboard,
        Platform::Other => Strategy::Unsupported,
    }
}

/// The failure the adapter reports on a platform without any strategy.
pub fn unsupported_error() -> (e: Error)
    ensures
        e matches Error::Clipboard(m) && m@
            == "clipboard has not been implemented for this system"@,
{
    Error::Clipboard(String::from_str("clipboard has not been implemented for this system"))
}

/// How the native-API delivery of one image must run: detached from the
/// caller, and holding clipboard ownership for a grace window, where the
/// desktop may clear it at process exit.
#[derive(Debug, Clone, Copy, PartialEq, Eq, Structural)]
pub struct ClipboardJob {
    /// Run as an independent unit of concurrent work, never blocking the
    /// caller.
    pub detached: bool,
    /// Keep ownership of the clipboard contents alive this many seconds
    /// after the set call returns.
    pub hold_seconds: u64,
}

/// How the native-API clipboard delivery must run on each platform: on
/// Linux detached and holding the contents for 45 seconds, so a
/// clipboard-manager-less desktop keeps the image pasteable without ever
/// freezing the caller; elsewhere inline with no hold.
pub fn dump_image_to_clipboard(platform: Platform) -> (job: ClipboardJob)
    ensures
        platform is Linux ==> job.detached && job.hold_seconds == 45,
        !(platform is Linux) ==> !job.detached && job.hold_seconds == 0,
{
    match platform {
        Platform::Linux => ClipboardJob { detached: true, hold_seconds: 45 },
        _ => ClipboardJob { detached: false, hold_seconds: 0 },
    }
}

/// What opening the native clipboard handle reported.
#[derive(Debug, Clone)]
pub enum ClipboardOpen {
    /// A handle is ready.
    Ready,
    /// The platform reports no clipboard support; not retryable.
    NotSupported,
    /// Opening failed some other way.
    Failed,
}

/// The severity of a host notification.
#[derive(Debug, Clone, Copy, PartialEq, Eq, Structural)]
pub enum NoticeLevel {
    Info,
    Warn,
    Error,
}

/// A fire-and-forget notification for the host to show.
#[derive(Debug, Clone)]
pub struct Notice {
    pub level: NoticeLevel,
    pub text: String,
}

/// What to do after the native clipboard handle was opened: the
/// notification to emit, and whether to go on and set the image.
pub fn on_clipboard_open(outcome: &ClipboardOpen) -> (r: (Notice, bool))
    ensures
        match *outcome {
            ClipboardOpen::Ready => {
                &&& r.0.level is Info
                &&& r.0.text@ == "Image saved to clipboard"@
                &&& r.1
            },
            ClipboardOpen::NotSupported => {
                &&& r.0.level is Error
                &&& r.0.text@ == "Clipboard not supported"@
                &&& !r.1
            },
            ClipboardOpen::Failed => {
                &&& r.0.level is Warn
                &&& r.0.text@ == "Failed to copy"@
                &&& !r.1
            },
        },
{
    match outcome {
        ClipboardOpen::Ready => (
            Notice { level: NoticeLevel::Info, text: String::from_str("Image saved to clipboard") },
            true,
        ),
        ClipboardOpen::NotSupported => (
            Notice { level: NoticeLevel::Error, text: String::from_str("Clipboard not supported") },
            false,
        ),
        ClipboardOpen::Failed => (
            Notice { level: NoticeLevel::Warn, text: String::from_str("Failed to copy") },
            false,
        ),
    }
}

/// What to do after the image was set: nothing on success, an error
/// notification carrying the failure's text otherwise.
pub fn on_set_result(outcome: &Result<(), String>) -> (r: Option<Notice>)
    ensures
        match *outcome {
            Ok(()) => r is None,
            Err(ref e) => r matches Some(n) && n.level is Error && n.text@
                == "Failed to copy to clipboard: "@ + e@,
        },
{
    match outcome {
        Ok(()) => None,
        Err(e) => Some(
            Notice {
                level: NoticeLevel::Error,
                text: String::from_str("Failed to copy to clipboard: ").concat(e.as_str()),
            },
        ),
    }
}

/// How a spawned copy tool started.
#[derive(Debug, Clone)]
pub enum SpawnResult {
    /// The tool is running and can be handed its input.
    Started,
    /// The tool could not even start; the spawn error's text.
    FailedToStart(String),
}

/// The next step of the Linux tool chain.
#[derive(Debug, Clone)]
pub enum ToolAction {
    /// The Wayland tool started: feed it the raw PNG bytes through its
    /// input stream — it takes bytes, not file paths, through that channel.
    FeedPngToWayland,
    /// The Wayland tool did not start: run the X11 tool, handing it the
    /// temporary PNG file's path directly as an argument.
    RunXclipWithPath,
}

/// What follows the attempt to start the Wayland tool `wl-copy`.
pub fn on_wayland_spawn(outcome: &SpawnResult) -> (a: ToolAction)
    ensures
        match *outcome {
            SpawnResult::Started => a is FeedPngToWayland,
            SpawnResult::FailedToStart(_) => a is RunXclipWithPath,
        },
{
    match outcome {
        SpawnResult::Started => ToolAction::FeedPngToWayland,
        SpawnResult::FailedToStart(_) => ToolAction::RunXclipWithPath,
    }
}

/// The composite failure when both copy tools fail to start: one message
/// naming both tools with their spawn errors.
pub open spec fn spec_composite_failure(wl_err: Seq<char>, x_err: Seq<char>) -> Seq<char> {
    "wl-copy failed to start: "@ + wl_err + "; xclip failed to start: "@ + x_err
}

/// What follows the attempt to start the X11 tool `xclip`, after the
/// Wayland tool already failed with `wl_err`: success hands over the file,
/// and a second failure escalates both spawn errors as one composite
/// clipboard failure.
pub fn on_xclip_spawn(wl_err: &String, outcome: &SpawnResult) -> (r: Result<(), Error>)
    ensures
        match *outcome {
            SpawnResult::Started => r is Ok,
            SpawnResult::FailedToStart(ref e) => r matches Err(err) && err matches Error::Clipboard(
                m,
            ) && m@ == spec_composite_failure(wl_err@, e@),
        },
{
    match outcome {
        SpawnResult::Started => Ok(()),
        SpawnResult::FailedToStart(e) => Err(
            Error::Clipboard(
                String::from_str("wl-copy failed to start: ").concat(wl_err.as_str()).concat(
                    "; xclip failed to start: ",
                ).concat(e.as_str()),
            ),
        ),
    }
}

/// Whether the Windows clipboard open should be tried again after
/// `attempt` failed attempts: up to ten absorb transient busy conditions.
pub fn should_retry_open(attempt: u32) -> (r: bool)
    ensures
        r == (attempt < 10),
{
    attempt < 10
}

/// The opaque RGB bytes of an RGBA buffer: every fourth byte — the alpha
/// channel — stripped, the rest kept in order.
pub open spec fn spec_rgb_of(d: Seq<u8>) -> Seq<u8> {
    Seq::new((3 * (d.len() / 4)) as nat, |i: int| d[4 * (i / 3) + i % 3])
}

/// Strips the alpha channel for a clipboard format with no alpha support,
/// as [`spec_rgb_of`] describes.
#[verifier::loop_isolation(false)]
pub fn rgba_to_rgb(data: &Vec<u8>) -> (out: Vec<u8>)
    ensures
        out@ == spec_rgb_of(data@),
{
    let npix = data.len() / 4;
    let mut out: Vec<u8> = Vec::new();
    let mut p: usize = 0;
    while p < npix
        invariant
            p <= npix,
            npix == data@.len() / 4,
            out@.len() == 3 * p,
            forall|j: int| #![all_triggers] 0 <= j < out@.len() ==> out@[j] == spec_rgb_of(data@)[j],
        decreases npix - p,
    {
        let mut k: usize = 0;
        while k < 3
            invariant
                p < npix,
                npix == data@.len() / 4,
                k <= 3,
                out@.len() == 3 * p + k,
                forall|j: int| #![all_triggers]
                    0 <= j < out@.len() ==> out@[j] == spec_rgb_of(data@)[j],
            decreases 3 - k,
        {
            proof {
                lemma_fundamental_div_mod(data@.len() as int, 4);
                lemma_mod_bound(data@.len() as int, 4);
                assert(4 * (p as int) + (k as int) < data@.len()) by (nonlinear_arith)
                    requires
                        0 <= (p as int),
                        (p as int) < data@.len() / 4,
                        0 <= (k as int) < 4,
                        4 * (data@.len() / 4) <= data@.len(),
                ;
            }
            let ghost j0 = out@.len() as int;
            out.push(data[4 * p + k]);
            proof {
                lemma_fundamental_div_mod_converse(j0, 3, p as int, k as int);
                assert(spec_rgb_of(data@)[j0] == data@[4 * (j0 / 3) + j0 % 3]);
            }
            k += 1;
        }
        p += 1;
    }
    proof {
        assert(out@ =~= spec_rgb_of(data@));
    }
    out
}

/// The pixel dimensions the clipboard payload of an image carries.
pub fn image_payload_dims(img: &RenderedImage) -> (r: (usize, usize))
    ensures
        r.0 == img.width as usize,
        r.1 == img.height as usize,
{
    (img.width as usize, img.height as usize)
}

} // verus!
