//! Opening a decoder: the render node, and whether its driver decodes H.264.

use vstd::prelude::*;

use crate::decode::decoder::Decoder;
use crate::decode::error::DecodeError;
use crate::decode::state::MemoryState;
use crate::va::{
    VaFailure, VA_ENTRYPOINT_VLD, VA_PROFILE_H264_CONSTRAINED_BASELINE, VA_PROFILE_H264_HIGH,
    VA_PROFILE_H264_MAIN,
};

verus! {

/// H.264 decoder configuration.
#[derive(Clone, Debug)]
pub struct Config {
    /// DRM render node to open (e.g. `/dev/dri/renderD128`).
    pub device: String,
}

impl Config {
    /// Returns a configuration pointing at the default render node.
    pub fn new() -> (c: Config)
        ensures
            c.device@ == "/dev/dri/renderD128"@,
    {
        Config { device: "/dev/dri/renderD128".to_string() }
    }
}

impl Default for Config {
    fn default() -> (c: Config)
        ensures
            c.device@ == "/dev/dri/renderD128"@,
    {
        Config::new()
    }
}

/// What opening a decoder needs the driver to do next.
#[derive(Debug)]
pub enum OpenRequest {
    /// Open the DRM render node.
    OpenDisplay { device: String },
    /// List the profiles.
    QueryConfigProfiles,
    /// List the entry points of `profile`.
    QueryConfigEntrypoints { profile: i32 },
}

/// What the driver answered.
#[derive(Debug)]
pub enum OpenReply {
    Done,
    Profiles(Vec<i32>),
    Entrypoints(Vec<u32>),
    Failed(VaFailure),
}

/// A decoder being opened.
#[derive(Debug)]
pub enum Opening {
    /// The display is being opened.
    Display,
    /// The profiles are being listed.
    Profiles,
    /// The entry points of `profiles[at]` are being listed.
    Entrypoints { profiles: Vec<i32>, at: usize },
}

/// What comes of an answer.
#[derive(Debug)]
pub enum OpenStep {
    /// Opening goes on once the driver has answered.
    Ask { opening: Opening, request: OpenRequest },
    /// The decoder is open.
    Open(Decoder),
}

/// Whether `profile` is an H.264 profile the decoder can drive.
pub open spec fn is_h264(profile: i32) -> bool {
    profile == VA_PROFILE_H264_CONSTRAINED_BASELINE || profile == VA_PROFILE_H264_MAIN || profile
        == VA_PROFILE_H264_HIGH
}

/// The first of `profiles` from `i` on that the decoder can drive, if any.
pub open spec fn candidate(profiles: Seq<i32>, i: int) -> Option<int>
    decreases profiles.len() - i,
{
    if i >= profiles.len() {
        None
    } else if is_h264(profiles[i]) {
        Some(i)
    } else {
        candidate(profiles, i + 1)
    }
}

/// Opening goes on to ask about the first candidate from `i` on, and fails where
/// there is none left.
pub open spec fn probes(profiles: Vec<i32>, i: int, r: Result<OpenStep, DecodeError>) -> bool {
    match candidate(profiles@, i) {
        Some(k) => r matches Ok(OpenStep::Ask { opening, request }) && opening == (
        Opening::Entrypoints { profiles, at: k as usize }) && request == (
        OpenRequest::QueryConfigEntrypoints { profile: profiles@[k] }),
        None => r matches Err(e) && e == DecodeError::NoDecodeEntrypoint,
    }
}

/// Opening comes to a decoder that has seen nothing.
pub open spec fn opens(r: Result<OpenStep, DecodeError>) -> bool {
    r matches Ok(OpenStep::Open(d)) && d.wf() && d.idle() && d@ == MemoryState::initial()
}

/// What `reply` makes of `opening`.
pub open spec fn opening_resumed(
    opening: Opening,
    reply: OpenReply,
    r: Result<OpenStep, DecodeError>,
) -> bool {
    match (opening, reply) {
        (Opening::Display, OpenReply::Done) => r matches Ok(OpenStep::Ask { opening, request })
            && opening is Profiles && request is QueryConfigProfiles,
        (Opening::Profiles, OpenReply::Profiles(profiles)) => probes(profiles, 0, r),
        (Opening::Entrypoints { profiles, at }, OpenReply::Entrypoints(entrypoints)) => {
            if entrypoints@.contains(VA_ENTRYPOINT_VLD) {
                opens(r)
            } else {
                probes(profiles, at + 1, r)
            }
        },
        // A profile whose entry points cannot be listed has none.
        (Opening::Entrypoints { profiles, at }, OpenReply::Failed(_)) => probes(
            profiles,
            at + 1,
            r,
        ),
        (_, OpenReply::Failed(failure)) => r matches Err(e) && e == DecodeError::Device(failure),
        _ => true,
    }
}

/// Whether `reply` answers what `opening` has asked.
pub open spec fn open_answers(opening: Opening, reply: OpenReply) -> bool {
    match (opening, reply) {
        (_, OpenReply::Failed(_)) => true,
        (Opening::Display, OpenReply::Done) => true,
        (Opening::Profiles, OpenReply::Profiles(_)) => true,
        (Opening::Entrypoints { .. }, OpenReply::Entrypoints(_)) => true,
        _ => false,
    }
}

impl Decoder {
    /// Starts opening a decoder: opens the render node, then checks that the driver
    /// exposes an H.264 decode entry point.
    ///
    /// The sequence and its surfaces come later, from the first SPS, since their
    /// profile and size come from the stream. This still fails early enough for a
    /// caller to fall back to another decoder when the node cannot be opened, or the
    /// driver decodes no H.264.
    pub fn new(config: Config) -> (r: (Opening, OpenRequest))
        ensures
            r.0 is Display,
            r.1 matches OpenRequest::OpenDisplay { device } && device@ == config.device@,
    {
        (Opening::Display, OpenRequest::OpenDisplay { device: config.device })
    }
}

/// Asks about the first profile from `from` on that the decoder can drive.
fn probe_decode_entrypoint(profiles: Vec<i32>, from: usize) -> (r: Result<OpenStep, DecodeError>)
    requires
        from <= profiles@.len(),
    ensures
        probes(profiles, from as int, r),
        r matches Ok(OpenStep::Ask { opening, .. }) ==> opening.wf(),
{
    let mut i: usize = from;
    while i < profiles.len()
        invariant
            from <= i <= profiles@.len(),
            candidate(profiles@, from as int) == candidate(profiles@, i as int),
        decreases profiles@.len() - i,
    {
        let profile: i32 = profiles[i];
        if profile == VA_PROFILE_H264_CONSTRAINED_BASELINE || profile == VA_PROFILE_H264_MAIN
            || profile == VA_PROFILE_H264_HIGH {
            return Ok(
                OpenStep::Ask {
                    opening: Opening::Entrypoints { profiles, at: i },
                    request: OpenRequest::QueryConfigEntrypoints { profile },
                },
            );
        }
        i = i + 1;
    }
    Err(DecodeError::NoDecodeEntrypoint)
}

/// Returns whether `entrypoints` has one that decodes.
fn decodes(entrypoints: &Vec<u32>) -> (b: bool)
    ensures
        b == entrypoints@.contains(VA_ENTRYPOINT_VLD),
{
    let mut i: usize = 0;
    while i < entrypoints.len()
        invariant
            i <= entrypoints@.len(),
            forall|k: int| 0 <= k < i ==> entrypoints@[k] != VA_ENTRYPOINT_VLD,
        decreases entrypoints@.len() - i,
    {
        if entrypoints[i] == VA_ENTRYPOINT_VLD {
            return true;
        }
        i = i + 1;
    }
    false
}

impl Opening {
    /// Whether the profile asked about is one of those listed.
    pub open spec fn wf(self) -> bool {
        self matches Opening::Entrypoints { profiles, at } ==> at < profiles.len()
    }

    /// Takes the driver's answer to the last request, and goes on.
    pub fn resume(self, reply: OpenReply) -> (r: Result<OpenStep, DecodeError>)
        requires
            self.wf(),
            open_answers(self, reply),
        ensures
            opening_resumed(self, reply, r),
            r matches Ok(OpenStep::Ask { opening, .. }) ==> opening.wf(),
    {
        match (self, reply) {
            (Opening::Display, OpenReply::Done) => Ok(
                OpenStep::Ask {
                    opening: Opening::Profiles,
                    request: OpenRequest::QueryConfigProfiles,
                },
            ),
            (Opening::Profiles, OpenReply::Profiles(profiles)) => probe_decode_entrypoint(
                profiles,
                0,
            ),
            (Opening::Entrypoints { profiles, at }, OpenReply::Entrypoints(entrypoints)) => {
                if decodes(&entrypoints) {
                    Ok(OpenStep::Open(Decoder::fresh()))
                } else {
                    probe_decode_entrypoint(profiles, at + 1)
                }
            },
            (Opening::Entrypoints { profiles, at }, OpenReply::Failed(_)) => {
                probe_decode_entrypoint(profiles, at + 1)
            },
            (_, OpenReply::Failed(failure)) => Err(DecodeError::Device(failure)),
            _ => vstd::pervasive::unreached(),
        }
    }
}

////// Laws

/// The profiles asked about are Main, High and Constrained Baseline: the first of them
/// listed, and after each that does not decode the next.
pub proof fn profiles_are_asked_about_in_order(
    opening: Opening,
    reply: OpenReply,
    r: Result<OpenStep, DecodeError>,
)
    requires
        opening.wf(),
        open_answers(opening, reply),
        opening_resumed(opening, reply, r),
    ensures
        match r {
            Ok(OpenStep::Ask { opening: after, request }) => match after {
                Opening::Display => false,
                Opening::Profiles => opening is Display && request is QueryConfigProfiles,
                Opening::Entrypoints { profiles, at } => {
                    let from = match opening {
                        Opening::Entrypoints { profiles: _, at: before } => before + 1,
                        _ => 0,
                    };
                    &&& match opening {
                        Opening::Entrypoints { profiles: listed, at: _ } => listed == profiles,
                        _ => reply matches OpenReply::Profiles(listed) && listed == profiles,
                    }
                    &&& from <= at < profiles@.len()
                    &&& request == (OpenRequest::QueryConfigEntrypoints {
                        profile: profiles@[at as int],
                    })
                    &&& is_asked_about(profiles@[at as int])
                    &&& forall|j: int| from <= j < at ==> !is_asked_about(#[trigger] profiles@[j])
                },
            },
            Ok(OpenStep::Open(d)) => {
                &&& opening is Entrypoints
                &&& reply matches OpenReply::Entrypoints(e) && e@.contains(1u32)
                &&& d.idle()
                &&& d@ == MemoryState::initial()
            },
            Err(e) => match (opening, reply) {
                (Opening::Display, OpenReply::Failed(f)) => e == DecodeError::Device(f),
                (Opening::Profiles, OpenReply::Failed(f)) => e == DecodeError::Device(f),
                (Opening::Profiles, OpenReply::Profiles(profiles)) => {
                    &&& e == DecodeError::NoDecodeEntrypoint
                    &&& forall|j: int|
                        0 <= j < profiles@.len() ==> !is_asked_about(#[trigger] profiles@[j])
                },
                (Opening::Entrypoints { profiles, at }, _) => {
                    &&& e == DecodeError::NoDecodeEntrypoint
                    &&& forall|j: int|
                        at < j < profiles@.len() ==> !is_asked_about(#[trigger] profiles@[j])
                },
                _ => false,
            },
        },
        (opening is Entrypoints && (reply matches OpenReply::Entrypoints(e) && e@.contains(1u32)))
            ==> (r matches Ok(OpenStep::Open(_))),
{
    match opening {
        Opening::Profiles => match reply {
            OpenReply::Profiles(profiles) => {
                assert(profiles.len() == profiles@.len());
                lemma_candidate(profiles@, 0);
            },
            _ => {},
        },
        Opening::Entrypoints { profiles, at } => {
            assert(profiles.len() == profiles@.len());
            lemma_candidate(profiles@, at + 1);
        },
        _ => {},
    }
}

/// Whether `profile` is Main, High or Constrained Baseline.
pub open spec fn is_asked_about(profile: i32) -> bool {
    profile == 6 || profile == 7 || profile == 13
}

/// Whether asking the driver about the candidates of `profiles` from `i` on, in
/// order, comes upon one that decodes; `vld` says which do.
pub open spec fn probing_succeeds(
    profiles: Seq<i32>,
    i: int,
    vld: spec_fn(i32) -> bool,
) -> bool
    decreases profiles.len() - i,
    via probing_ends
{
    match candidate(profiles, i) {
        Some(k) => vld(profiles[k]) || probing_succeeds(profiles, k + 1, vld),
        None => false,
    }
}

#[via_fn]
proof fn probing_ends(profiles: Seq<i32>, i: int, vld: spec_fn(i32) -> bool) {
    lemma_candidate(profiles, i);
}

proof fn lemma_candidate(profiles: Seq<i32>, i: int)
    ensures
        match candidate(profiles, i) {
            Some(k) => i <= k < profiles.len() && is_h264(profiles[k]) && forall|j: int|
                i <= j < k ==> !is_h264(#[trigger] profiles[j]),
            None => forall|j: int| i <= j < profiles.len() ==> !is_h264(#[trigger] profiles[j]),
        },
    decreases profiles.len() - i,
{
    if i < profiles.len() && !is_h264(profiles[i]) {
        lemma_candidate(profiles, i + 1);
    }
}

/// A decoder opens exactly where the driver decodes some H.264 profile: probing
/// overlooks none.
pub proof fn probing_overlooks_nothing(profiles: Seq<i32>, vld: spec_fn(i32) -> bool)
    ensures
        probing_succeeds(profiles, 0, vld) <==> exists|k: int|
            0 <= k < profiles.len() && is_h264(#[trigger] profiles[k]) && vld(profiles[k]),
{
    lemma_probing(profiles, 0, vld);
}

proof fn lemma_probing(profiles: Seq<i32>, i: int, vld: spec_fn(i32) -> bool)
    requires
        0 <= i,
    ensures
        probing_succeeds(profiles, i, vld) <==> exists|k: int|
            i <= k < profiles.len() && is_h264(#[trigger] profiles[k]) && vld(profiles[k]),
    decreases profiles.len() - i,
{
    lemma_candidate(profiles, i);
    match candidate(profiles, i) {
        Some(k) => {
            lemma_probing(profiles, k + 1, vld);
        },
        None => {},
    }
}

} // verus!
