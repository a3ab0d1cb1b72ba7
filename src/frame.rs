use vstd::prelude::*;

verus! {

/// Largest identifier of a standard (11-bit) frame.
pub const SFF_MASK: u32 = 0x7ff;

/// Largest identifier of an extended (29-bit) frame.
pub const EFF_MASK: u32 = 0x1fff_ffff;

/// Most data bytes a classic frame carries.
pub const MAX_DATA_LEN: usize = 8;

/// Why a frame could not be built from otherwise well-formed fields.
#[derive(Clone, Copy, Debug, PartialEq, Eq, Structural)]
pub enum ConstructionError {
    /// The identifier does not fit in 29 bits.
    IdTooLarge,
    /// More than eight data bytes.
    TooMuchData,
}

/// The contents of a frame, as plain values.
pub struct FrameView {
    pub id: u32,
    pub data: Seq<u8>,
    pub rtr: bool,
    pub err: bool,
}

/// One bus frame: an identifier of at most 29 bits, up to eight data bytes,
/// and the remote-request and error flags.
#[derive(Clone, Debug)]
pub struct CanFrame {
    id: u32,
    data: Vec<u8>,
    rtr: bool,
    err: bool,
}

/// What `CanFrame::new` makes of its arguments.
pub open spec fn frame_of(id: u32, data: Seq<u8>, rtr: bool, err: bool) -> Result<
    FrameView,
    ConstructionError,
> {
    if id > EFF_MASK {
        Err(ConstructionError::IdTooLarge)
    } else if data.len() > MAX_DATA_LEN {
        Err(ConstructionError::TooMuchData)
    } else {
        Ok(FrameView { id, data, rtr, err })
    }
}

impl View for CanFrame {
    type V = FrameView;

    closed spec fn view(&self) -> FrameView {
        FrameView { id: self.id, data: self.data@, rtr: self.rtr, err: self.err }
    }
}

impl CanFrame {
    /// The identifier fits in 29 bits and the data in eight bytes.
    pub closed spec fn wf(&self) -> bool {
        self.id <= EFF_MASK && self.data@.len() <= MAX_DATA_LEN
    }

    /// Builds a frame; the identifier must fit in 29 bits and the data in
    /// eight bytes.
    pub fn new(id: u32, data: &[u8], rtr: bool, err: bool) -> (r: Result<CanFrame, ConstructionError>)
        ensures
            r matches Ok(f) ==> f.wf() && frame_of(id, data@, rtr, err) == Ok::<
                FrameView,
                ConstructionError,
            >(f@),
            r matches Err(e) ==> frame_of(id, data@, rtr, err) == Err::<FrameView, ConstructionError>(
                e,
            ),
    {
        if id > EFF_MASK {
            return Err(ConstructionError::IdTooLarge);
        }
        if data.len() > MAX_DATA_LEN {
            return Err(ConstructionError::TooMuchData);
        }
        let data = vstd::slice::slice_to_vec(data);
        Ok(CanFrame { id, data, rtr, err })
    }

    /// The identifier, without flags.
    pub fn id(&self) -> (r: u32)
        ensures
            r == self@.id,
    {
        self.id
    }

    /// The data bytes.
    pub fn data(&self) -> (r: &[u8])
        ensures
            r@ == self@.data,
    {
        self.data.as_slice()
    }

    /// Whether this is a remote-request frame.
    pub fn is_rtr(&self) -> (r: bool)
        ensures
            r == self@.rtr,
    {
        self.rtr
    }

    /// Whether this is an error frame.
    pub fn is_error(&self) -> (r: bool)
        ensures
            r == self@.err,
    {
        self.err
    }

    /// Whether the identifier needs the extended (29-bit) format.
    pub fn is_extended(&self) -> (r: bool)
        ensures
            r == (self@.id > SFF_MASK),
    {
        self.id > SFF_MASK
    }
}

} // verus!
