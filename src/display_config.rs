//! The records of the display configuration interface.
use vstd::prelude::*;

verus! {

/// A set of parameters applied to an output, such as resolution and refresh rate.
/// The refresh rate is held in millihertz.
#[derive(PartialEq, Eq, Structural, Clone, Copy, Debug)]
pub struct Mode {
    /// The ID in the API
    pub id: u32,
    /// The low-level ID of this mode
    pub winsys_id: i64,
    pub width: u32,
    pub height: u32,
    /// Refresh rate, in millihertz
    pub frequency_mhz: u32,
    /// Mode flags as defined in xf86drmMode.h and randr.h
    pub flags: u32,
}

} // verus!
verus! {

/// An output transform, as the wayland protocol numbers them.
#[derive(PartialEq, Eq, Structural, Clone, Copy, Debug)]
pub enum Transform {
    Normal,
    Normal90,
    Normal180,
    Normal270,
    Flipped,
    Flipped90,
    Flipped180,
    Flipped270,
}

/// The wire number of a transform.
pub open spec fn transform_code(t: Transform) -> u32 {
    match t {
        Transform::Normal => 0,
        Transform::Normal90 => 1,
        Transform::Normal180 => 2,
        Transform::Normal270 => 3,
        Transform::Flipped => 4,
        Transform::Flipped90 => 5,
        Transform::Flipped180 => 6,
        Transform::Flipped270 => 7,
    }
}

/// A number that names no transform.
#[derive(PartialEq, Eq, Structural, Clone, Copy, Debug)]
pub struct TransformOutOfRange(pub u32);

impl Transform {
    pub fn to_u32(&self) -> (r: u32)
        ensures
            r == transform_code(*self),
    {
        match self {
            Transform::Normal => 0,
            Transform::Normal90 => 1,
            Transform::Normal180 => 2,
            Transform::Normal270 => 3,
            Transform::Flipped => 4,
            Transform::Flipped90 => 5,
            Transform::Flipped180 => 6,
            Transform::Flipped270 => 7,
        }
    }

    /// The transform numbered `value`, or an error that carries `value` when
    /// none is.
    pub fn try_from_u32(value: u32) -> (r: Result<Transform, TransformOutOfRange>)
        ensures
            r is Ok <==> value < 8,
            r matches Ok(t) ==> transform_code(t) == value,
            r matches Err(e) ==> e == TransformOutOfRange(value),
    {
        match value {
            0 => Ok(Transform::Normal),
            1 => Ok(Transform::Normal90),
            2 => Ok(Transform::Normal180),
            3 => Ok(Transform::Normal270),
            4 => Ok(Transform::Flipped),
            5 => Ok(Transform::Flipped90),
            6 => Ok(Transform::Flipped180),
            7 => Ok(Transform::Flipped270),
            _ => Err(TransformOutOfRange(value)),
        }
    }
}

/// A logical monitor: a portion of the compositor coordinate space.
#[derive(Clone, Debug)]
pub struct CrtController {
    /// The ID in the API of this CRTC
    pub id: u32,
    /// The low-level ID of this CRTC
    pub winsys_id: i64,
    pub x: i32,
    pub y: i32,
    pub width: i32,
    pub height: i32,
    /// The current mode of the CRTC, or -1 if this CRTC is not used
    pub mode_id: i32,
    /// The current transform
    pub transform: Transform,
    /// All possible transforms
    pub transforms: Vec<u32>,
}

/// A new configuration for one CRTC.
#[derive(Clone, Debug)]
pub struct CrtControllerChange {
    /// The API ID from the corresponding resources call
    pub id: u32,
    /// The API ID of the new mode, or -1 if the CRTC should be disabled
    pub mode_id: i32,
    /// The new coordinates of the top left corner
    pub x: i32,
    pub y: i32,
    /// The desired transform
    pub transform: u32,
    /// The API IDs of the outputs that this CRTC should drive
    pub output_ids: Vec<u32>,
}

/// Other high-level properties of an output; they are not necessarily
/// reflected in the hardware.
#[derive(Clone, Debug, Default)]
pub struct OutputProperties {
    pub vendor: Option<String>,
    pub product: Option<String>,
    pub serial: Option<String>,
    /// Sent under the wire key `display-name`
    pub display_name: Option<String>,
    /// The backlight value as a percentage (-1 if not supported)
    pub backlight: Option<i64>,
    pub primary: Option<bool>,
    pub presentation: Option<bool>,
}

/// A physical screen connected to the computer.
#[derive(Clone, Debug)]
pub struct Output {
    /// The ID in the API
    pub id: u32,
    /// The low-level ID of this output
    pub winsys_id: i64,
    /// The CRTC driving this output, or -1 if the output is disabled
    pub crtc_id: i32,
    /// All CRTCs that can drive this output
    pub possible_crtc_ids: Vec<u32>,
    /// The name of the connector (like VGA1 or HDMI)
    pub connector_name: String,
    /// Valid modes for this output
    pub mode_ids: Vec<u32>,
    /// Outputs that can share a CRTC with this one
    pub clone_ids: Vec<u32>,
    pub props: OutputProperties,
}

/// Property changes for one output.
#[derive(Clone, Debug)]
pub struct OutputChange {
    /// The API ID of the output to change
    pub id: u32,
    /// Properties whose value should be changed
    pub props: OutputProperties,
}

/// The current hardware layout.
#[derive(Clone, Debug)]
pub struct GetResourcesReturn {
    /// ID of the current state of the screen configuration
    pub serial: u32,
    pub crtcs: Vec<CrtController>,
    pub outputs: Vec<Output>,
    pub modes: Vec<Mode>,
    pub max_screen_width: i32,
    pub max_screen_height: i32,
}

/// The arguments of a configuration change.
#[derive(Clone, Debug)]
pub struct ApplyConfigurationArgs {
    pub serial: u32,
    pub persistent: bool,
    /// The new logical configuration; CRTCs not listed are disabled
    pub crtcs: Vec<CrtControllerChange>,
    /// Output property changes
    pub outputs: Vec<OutputChange>,
}

/// The arguments of a backlight change.
#[derive(Clone, Debug)]
pub struct ChangeBacklightArgs {
    pub serial: u32,
    /// The API id of the output
    pub output: u32,
    /// The new backlight value
    pub value: i32,
}

/// The gamma ramps of a CRTC.
#[derive(Clone, Debug)]
pub struct CrtcGamma {
    pub red: Vec<u16>,
    pub green: Vec<u16>,
    pub blue: Vec<u16>,
}

} // verus!
