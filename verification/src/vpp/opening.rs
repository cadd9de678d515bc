//! Opening a post-processor: the render node, and a configuration of its
//! `VAEntrypointVideoProc`.

use vstd::prelude::*;

use crate::va::{
    VaFailure, VA_CONFIG_ATTRIB_RT_FORMAT, VA_ENTRYPOINT_VIDEO_PROC, VA_PROFILE_NONE,
};
use crate::vpp::{Processor, VppError};

verus! {

/// A configuration attribute.
#[derive(Clone, Copy, Debug, PartialEq, Eq, Structural)]
pub struct ConfigAttrib {
    pub type_: u32,
    pub value: u32,
}

/// What opening a post-processor needs the driver to do next.
#[derive(Debug)]
pub enum OpenRequest {
    /// Open a DRM render node.
    OpenDisplay { device: String },
    /// Fill in the value of an attribute.
    GetConfigAttributes { display: u32, profile: i32, entrypoint: u32, attrib: ConfigAttrib },
    /// Create a configuration.
    CreateConfig { display: u32, profile: i32, entrypoint: u32, attrib: ConfigAttrib },
}

/// What the driver answered.
#[derive(Debug)]
pub enum OpenReply {
    Display(u32),
    Attribute(ConfigAttrib),
    Config(u32),
    Failed(VaFailure),
}

/// What opening waits for.
#[derive(Clone, Copy, Debug, PartialEq, Eq, Structural)]
pub enum OpenStage {
    Display,
    Attributes { display: u32 },
    Config { display: u32 },
}

/// A post-processor being opened.
#[derive(Debug)]
pub struct Opening {
    /// The devices to try, in order.
    pub devices: Vec<String>,
    /// The device to try if this one fails.
    pub next: usize,
    /// Whether another device will do.
    pub any: bool,
    pub stage: OpenStage,
}

/// What comes of an answer.
#[derive(Debug)]
pub enum OpenStep {
    /// Opening goes on once the driver has answered.
    Ask { opening: Opening, request: OpenRequest },
    /// The post-processor is open.
    Open(Processor),
}

/// The attribute asked about: which render targets there are.
pub open spec fn asked_attrib() -> ConfigAttrib {
    ConfigAttrib { type_: VA_CONFIG_ATTRIB_RT_FORMAT, value: 0 }
}

/// Whether `r` goes on to try `devices[next]`, or gives up where there is none.
pub open spec fn tries(devices: Seq<String>, next: int, r: Result<OpenStep, VppError>) -> bool {
    if next < devices.len() {
        &&& r matches Ok(OpenStep::Ask { opening, request })
        &&& opening.devices@ == devices
        &&& opening.next == next + 1
        &&& opening.any
        &&& opening.stage is Display
        &&& request matches OpenRequest::OpenDisplay { device } && device@ == devices[next]@
    } else {
        r matches Err(e) && e == VppError::NoDevice
    }
}

/// Whether `r` asks for `request`, with `o` at `stage`.
pub open spec fn open_asks(
    o: Opening,
    stage: OpenStage,
    request: OpenRequest,
    r: Result<OpenStep, VppError>,
) -> bool {
    r matches Ok(OpenStep::Ask { opening, request: q }) && opening == (Opening { stage, ..o }) && q
        == request
}

/// The probe of an open display: asks for the attribute.
pub open spec fn probe(display: u32) -> OpenRequest {
    OpenRequest::GetConfigAttributes {
        display,
        profile: VA_PROFILE_NONE,
        entrypoint: VA_ENTRYPOINT_VIDEO_PROC,
        attrib: asked_attrib(),
    }
}

/// What `reply` makes of the opening `o`.
pub open spec fn open_resumed(o: Opening, reply: OpenReply, r: Result<OpenStep, VppError>) -> bool {
    match (o.stage, reply) {
        (_, OpenReply::Failed(failure)) => if o.any {
            tries(o.devices@, o.next as int, r)
        } else {
            r matches Err(e) && e == VppError::Device(failure)
        },
        (OpenStage::Display, OpenReply::Display(display)) => open_asks(
            o,
            OpenStage::Attributes { display },
            probe(display),
            r,
        ),
        (OpenStage::Attributes { display }, OpenReply::Attribute(attrib)) => open_asks(
            o,
            OpenStage::Config { display },
            OpenRequest::CreateConfig {
                display,
                profile: VA_PROFILE_NONE,
                entrypoint: VA_ENTRYPOINT_VIDEO_PROC,
                attrib,
            },
            r,
        ),
        (OpenStage::Config { display }, OpenReply::Config(config)) => {
            &&& r matches Ok(OpenStep::Open(p))
            &&& p.spec_display() == display
            &&& p.spec_config() == config
        },
        _ => true,
    }
}

/// Whether `reply` answers what `o` has asked.
pub open spec fn open_answers(o: Opening, reply: OpenReply) -> bool {
    match (o.stage, reply) {
        (_, OpenReply::Failed(_)) => true,
        (OpenStage::Display, OpenReply::Display(_)) => true,
        (OpenStage::Attributes { .. }, OpenReply::Attribute(_)) => true,
        (OpenStage::Config { .. }, OpenReply::Config(_)) => true,
        _ => false,
    }
}

impl Processor {
    /// Starts opening `device` and configuring it for video post-processing.
    ///
    /// `device` is a DRM render node, e.g. `/dev/dri/renderD128`. Pick the one
    /// matching the device that will consume the result: a re-tile only helps if
    /// both ends are the same GPU.
    pub fn new(device: String) -> (r: (Opening, OpenRequest))
        ensures
            r.0.devices@.len() == 0,
            !r.0.any,
            r.0.stage is Display,
            r.0.wf(),
            r.1 matches OpenRequest::OpenDisplay { device: d } && d@ == device@,
    {
        (
            Opening { devices: Vec::new(), next: 0, any: false, stage: OpenStage::Display },
            OpenRequest::OpenDisplay { device },
        )
    }

    /// Starts opening the first of `devices` whose driver can post-process, if any.
    ///
    /// This is what a caller with no opinion about which GPU should use. A machine
    /// with more than one wants [`Processor::new`] instead: a re-tile helps only
    /// when the surface ends up on the device that will read it.
    pub fn open(devices: Vec<String>) -> (r: Result<OpenStep, VppError>)
        ensures
            tries(devices@, 0, r),
            r matches Ok(OpenStep::Ask { opening, .. }) ==> opening.wf(),
    {
        try_next(devices, 0)
    }

    /// Starts configuring an already open display for video post-processing.
    ///
    /// Fails when the device has no `VAEntrypointVideoProc`, which is how a
    /// caller finds out before the first frame rather than during it.
    pub fn with_display(display: u32) -> (r: (Opening, OpenRequest))
        ensures
            r.0.devices@.len() == 0,
            !r.0.any,
            r.0.stage == (OpenStage::Attributes { display }),
            r.0.wf(),
            r.1 == probe(display),
            r.1 == (OpenRequest::GetConfigAttributes {
                display,
                profile: VA_PROFILE_NONE,
                entrypoint: VA_ENTRYPOINT_VIDEO_PROC,
                attrib: (ConfigAttrib { type_: VA_CONFIG_ATTRIB_RT_FORMAT, value: 0 }),
            }),
    {
        // Asking for the attribute is the probe: a device without the VPP
        // entrypoint fails here instead of at vaCreateConfig.
        (
            Opening {
                devices: Vec::new(),
                next: 0,
                any: false,
                stage: OpenStage::Attributes { display },
            },
            OpenRequest::GetConfigAttributes {
                display,
                profile: VA_PROFILE_NONE,
                entrypoint: VA_ENTRYPOINT_VIDEO_PROC,
                attrib: ConfigAttrib { type_: VA_CONFIG_ATTRIB_RT_FORMAT, value: 0 },
            },
        )
    }
}

/// Goes on to `devices[next]`.
fn try_next(devices: Vec<String>, next: usize) -> (r: Result<OpenStep, VppError>)
    requires
        next <= devices@.len(),
    ensures
        tries(devices@, next as int, r),
        r matches Ok(OpenStep::Ask { opening, .. }) ==> opening.wf(),
{
    if next < devices.len() {
        let device = devices[next].clone();
        Ok(
            OpenStep::Ask {
                opening: Opening {
                    devices,
                    next: next + 1,
                    any: true,
                    stage: OpenStage::Display,
                },
                request: OpenRequest::OpenDisplay { device },
            },
        )
    } else {
        Err(VppError::NoDevice)
    }
}

impl Opening {
    /// Whether the device to try next is one of those there are, or past the last.
    pub open spec fn wf(self) -> bool {
        self.next <= self.devices@.len()
    }

    /// Takes the driver's answer to the last request, and goes on.
    pub fn resume(self, reply: OpenReply) -> (r: Result<OpenStep, VppError>)
        requires
            self.wf(),
            open_answers(self, reply),
        ensures
            open_resumed(self, reply, r),
            r matches Ok(OpenStep::Ask { opening, .. }) ==> opening.wf(),
    {
        match (self.stage, reply) {
            (_, OpenReply::Failed(failure)) => {
                if self.any {
                    try_next(self.devices, self.next)
                } else {
                    Err(VppError::Device(failure))
                }
            },
            (OpenStage::Display, OpenReply::Display(display)) => Ok(
                OpenStep::Ask {
                    opening: Opening { stage: OpenStage::Attributes { display }, ..self },
                    request: OpenRequest::GetConfigAttributes {
                        display,
                        profile: VA_PROFILE_NONE,
                        entrypoint: VA_ENTRYPOINT_VIDEO_PROC,
                        attrib: ConfigAttrib { type_: VA_CONFIG_ATTRIB_RT_FORMAT, value: 0 },
                    },
                },
            ),
            (OpenStage::Attributes { display }, OpenReply::Attribute(attrib)) => Ok(
                OpenStep::Ask {
                    opening: Opening { stage: OpenStage::Config { display }, ..self },
                    request: OpenRequest::CreateConfig {
                        display,
                        profile: VA_PROFILE_NONE,
                        entrypoint: VA_ENTRYPOINT_VIDEO_PROC,
                        attrib,
                    },
                },
            ),
            (OpenStage::Config { display }, OpenReply::Config(config)) => Ok(
                OpenStep::Open(Processor::assemble(display, config)),
            ),
            _ => vstd::pervasive::unreached(),
        }
    }
}

////// Laws

/// A display is asked about its render targets for post-processing and no profile, and the
/// configuration is created with the answer, on the same display.
pub proof fn configurations_are_for_post_processing(
    o: Opening,
    reply: OpenReply,
    r: Result<OpenStep, VppError>,
)
    requires
        o.wf(),
        open_answers(o, reply),
        open_resumed(o, reply, r),
    ensures
        reply matches OpenReply::Display(d) ==> {
            &&& r matches Ok(OpenStep::Ask { opening, request })
            &&& opening.stage == (OpenStage::Attributes { display: d })
            &&& opening.devices == o.devices && opening.next == o.next && opening.any == o.any
            &&& request matches OpenRequest::GetConfigAttributes {
                display,
                profile,
                entrypoint,
                attrib,
            }
            &&& display == d
            &&& profile == -1
            &&& entrypoint == 10
            &&& attrib.type_ == 0
            &&& attrib.value == 0
        },
        reply matches OpenReply::Attribute(a) ==> {
            &&& o.stage matches OpenStage::Attributes { display: d }
            &&& r matches Ok(OpenStep::Ask { opening, request })
            &&& opening.stage == (OpenStage::Config { display: d })
            &&& opening.devices == o.devices && opening.next == o.next && opening.any == o.any
            &&& request matches OpenRequest::CreateConfig { display, profile, entrypoint, attrib }
            &&& display == d
            &&& profile == -1
            &&& entrypoint == 10
            &&& attrib == a
        },
        reply matches OpenReply::Config(c) ==> {
            &&& o.stage matches OpenStage::Config { display: d }
            &&& r matches Ok(OpenStep::Open(p))
            &&& p.spec_display() == d
            &&& p.spec_config() == c
        },
        (reply matches OpenReply::Failed(f) && !o.any) ==> (r matches Err(e) && e
            == VppError::Device(reply->Failed_0)),
{
}

/// Devices are tried in their order, each once: the next one is opened, and the one after
/// it is next.
pub proof fn devices_are_tried_in_order(
    devices: Seq<String>,
    next: int,
    r: Result<OpenStep, VppError>,
)
    requires
        0 <= next,
        tries(devices, next, r),
    ensures
        next >= devices.len() <==> r is Err,
        r matches Ok(step) ==> {
            &&& step matches OpenStep::Ask { opening, request }
            &&& opening.devices@ == devices
            &&& opening.next == next + 1
            &&& opening.any
            &&& opening.stage is Display
            &&& request matches OpenRequest::OpenDisplay { device } && device@ == devices[next]@
        },
        r matches Err(e) ==> e == VppError::NoDevice,
{
}

/// A device that fails, at whatever stage, does not end the search while another is
/// left; the search ends in failure only once every device has been tried.
pub proof fn failing_devices_are_passed_over(
    o: Opening,
    failure: VaFailure,
    r: Result<OpenStep, VppError>,
)
    requires
        o.wf(),
        o.any,
        open_resumed(o, OpenReply::Failed(failure), r),
    ensures
        r is Ok <==> o.next < o.devices@.len(),
        r is Ok ==> tries(o.devices@, o.next as int, r),
        r matches Err(e) ==> e == VppError::NoDevice,
{
}

} // verus!
