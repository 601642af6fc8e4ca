//! The synchronized actor snapshot and its per-peer bookkeeping entry.

use vstd::prelude::*;

verus! {

/// One complete actor snapshot, fixed-layout for guest interop.
///
/// Field order and widths follow the guest record: three 32-bit world
/// position components (IEEE-754 bit patterns, host byte order), three
/// signed 16-bit shape rotation components, three signed 16-bit upper limb
/// rotation components, a joint table of 24 joints with three signed 16-bit
/// components each (72 values, flattened), and two signed bytes.
#[derive(Clone, Copy, Debug)]
pub struct ActorData {
    /// World position, one IEEE-754 32-bit pattern per axis.
    pub world_position: [u32; 3],
    /// Shape rotation, one signed 16-bit value per axis.
    pub shape_rotation: [i16; 3],
    /// Upper limb rotation, one signed 16-bit value per axis.
    pub upper_limb_rot: [i16; 3],
    /// 24 joints, three signed 16-bit components each, flattened.
    pub joint_table: [i16; 72],
    /// Currently equipped boots.
    pub current_boots: i8,
    /// Currently equipped shield.
    pub current_shield: i8,
}

/// The mathematical image of an actor snapshot.
pub struct ActorView {
    /// World position bit patterns, length 3.
    pub world_position: Seq<u32>,
    /// Shape rotation, length 3.
    pub shape_rotation: Seq<i16>,
    /// Upper limb rotation, length 3.
    pub upper_limb_rot: Seq<i16>,
    /// Flattened joint table, length 72.
    pub joint_table: Seq<i16>,
    /// Currently equipped boots.
    pub current_boots: i8,
    /// Currently equipped shield.
    pub current_shield: i8,
}

impl View for ActorData {
    type V = ActorView;

    open spec fn view(&self) -> ActorView {
        ActorView {
            world_position: self.world_position@,
            shape_rotation: self.shape_rotation@,
            upper_limb_rot: self.upper_limb_rot@,
            joint_table: self.joint_table@,
            current_boots: self.current_boots,
            current_shield: self.current_shield,
        }
    }
}

impl DeepView for ActorData {
    type V = ActorView;

    open spec fn deep_view(&self) -> ActorView {
        self.view()
    }
}

/// The latest snapshot received from one peer, with the local receive time.
#[derive(Debug)]
pub struct RemoteActorData {
    /// The peer's client id.
    pub id: String,
    /// The peer's latest snapshot.
    pub data: ActorData,
    /// When the snapshot arrived, in the caller's clock (milliseconds).
    pub last_update: u64,
}

/// The mathematical image of a peer's snapshot entry.
pub struct RemoteActorView {
    /// The peer's client id.
    pub id: Seq<char>,
    /// The peer's latest snapshot.
    pub data: ActorView,
    /// When the snapshot arrived.
    pub last_update: u64,
}

impl View for RemoteActorData {
    type V = RemoteActorView;

    open spec fn view(&self) -> RemoteActorView {
        RemoteActorView { id: self.id@, data: self.data@, last_update: self.last_update }
    }
}

impl DeepView for RemoteActorData {
    type V = RemoteActorView;

    open spec fn deep_view(&self) -> RemoteActorView {
        self.view()
    }
}

} // verus!
