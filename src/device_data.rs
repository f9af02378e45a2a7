use crate::device::TestProbeGetDataRequest;
use crate::device::TestProbeGetDataResponse;
use crate::device::TestProbeSetData;
use vstd::prelude::*;

verus! {

/// A payload of the out-of-band data channel. The circuit forwards it
/// unread; the variant tells the receiving device what it holds.
#[derive(Clone, Copy, Debug)]
pub enum DeviceData {
    ProbeSet(TestProbeSetData),
    ProbeGetRequest(TestProbeGetDataRequest),
    ProbeGetResponse(TestProbeGetDataResponse),
}

} // verus!
