//! Audio components: the one output unit, and its instances.
#![allow(non_snake_case)]
#![allow(non_upper_case_globals)]

use crate::abi::GuestFunction;
use crate::environment::Environment;
use crate::mem::{
    le_u32, overwrite, record_covers, u32_le, AllocRecord, ConstPtr, ConstVoidPtr, MemError,
    MutPtr, Ptr, SafeRead, SafeWrite,
};
use core::marker::PhantomData;
use std::collections::HashMap;
use std::time::Instant;
use vstd::prelude::*;

verus! {

broadcast use vstd::std_specs::hash::group_hash_axioms;

/// `std::time::Instant`: a measurement of the host's monotonic clock.
/// Nothing is claimed of it; the library carries such values and never looks
/// inside.
#[verifier::external_type_specification]
#[verifier::external_body]
pub struct ExInstant(Instant);

pub type OSStatus = i32;

/// The status that reports a parameter error.
pub const paramErr: OSStatus = -50;

/// The number that four characters spell, first character in the highest
/// byte.
pub open spec fn fourcc_of(code: Seq<u8>) -> u32 {
    (code[0] as int * 0x100_0000 + code[1] as int * 0x1_0000 + code[2] as int * 0x100
        + code[3] as int) as u32
}

/// The number that four characters spell.
pub fn fourcc(code: &[u8; 4]) -> (n: u32)
    ensures
        n == fourcc_of(code@),
{
    code[0] as u32 * 0x100_0000 + code[1] as u32 * 0x1_0000 + code[2] as u32 * 0x100
        + code[3] as u32
}

/// `auou`
pub const kAudioUnitType_Output: u32 = 0x6175_6f75;

/// `rioc`
pub const kAudioUnitSubType_RemoteIO: u32 = 0x7269_6f63;

/// `appl`
pub const kAudioUnitManufacturer_Apple: u32 = 0x6170_706c;

/// `lpcm`
pub const kAudioFormatLinearPCM: u32 = 0x6c70_636d;

pub const kAudioFormatFlagIsFloat: u32 = 1;

pub const kAudioFormatFlagIsSignedInteger: u32 = 4;

pub const kAudioFormatFlagIsPacked: u32 = 8;

pub const kAudioFormatFlagIsAlignedHigh: u32 = 16;

/// The four flags of the default format together.
pub const DEFAULT_FORMAT_FLAGS: u32 = 29;

/// The bits of the sample rate 44100 as a double-precision number.
pub const DEFAULT_SAMPLE_RATE_BITS: u64 = 0x40e5_8880_0000_0000;

/// The format of a stream of audio data.
#[derive(Clone, Copy, Debug, PartialEq, Eq, Structural)]
pub struct AudioStreamBasicDescription {
    /// The sample rate, as the bits of a double-precision number.
    pub sample_rate: u64,
    pub format_id: u32,
    pub format_flags: u32,
    pub bytes_per_packet: u32,
    pub frames_per_packet: u32,
    pub bytes_per_frame: u32,
    pub channels_per_frame: u32,
    pub bits_per_channel: u32,
    pub _reserved: u32,
}

/// The instances of the output unit, by the address of each.
pub struct State {
    pub audio_component_instances: HashMap<u32, AudioComponentInstanceHostObject>,
}

impl State {
    /// The part of the frameworks' state that belongs to audio components.
    pub fn get(framework_state: &mut crate::frameworks::State) -> (state: &mut Self)
        ensures
            *state == old(framework_state).audio_toolbox.audio_components,
            final(framework_state).audio_toolbox.audio_components == *final(state),
    {
        &mut framework_state.audio_toolbox.audio_components
    }

    /// The state without instances.
    pub fn new() -> (state: State)
        ensures
            state.audio_component_instances@ == Map::<
                u32,
                AudioComponentInstanceHostObject,
            >::empty(),
    {
        State { audio_component_instances: HashMap::new() }
    }
}

/// The host side of an instance.
#[derive(Clone)]
pub struct AudioComponentInstanceHostObject {
    pub started: bool,
    pub global_stream_format: AudioStreamBasicDescription,
    pub output_stream_format: Option<AudioStreamBasicDescription>,
    pub render_callback: Option<AURenderCallbackStruct>,
    pub last_render_time: Option<Instant>,
    pub al_source: Option<u32>,
}

/// The format of a new instance: two channels of packed 32-bit samples at
/// 44100 Hz.
pub open spec fn default_stream_format() -> AudioStreamBasicDescription {
    AudioStreamBasicDescription {
        sample_rate: DEFAULT_SAMPLE_RATE_BITS,
        format_id: kAudioFormatLinearPCM,
        format_flags: DEFAULT_FORMAT_FLAGS,
        bytes_per_packet: 4,
        frames_per_packet: 1,
        bytes_per_frame: 4,
        channels_per_frame: 2,
        bits_per_channel: 32,
        _reserved: 0,
    }
}

/// The host side of a new instance: stopped, with the default format and
/// nothing else set.
pub open spec fn default_host_object() -> AudioComponentInstanceHostObject {
    AudioComponentInstanceHostObject {
        started: false,
        global_stream_format: default_stream_format(),
        output_stream_format: None,
        render_callback: None,
        last_render_time: None,
        al_source: None,
    }
}

impl Default for AudioComponentInstanceHostObject {
    fn default() -> (host_object: Self)
        ensures
            host_object == default_host_object(),
    {
        assert(kAudioFormatFlagIsFloat | kAudioFormatFlagIsSignedInteger | kAudioFormatFlagIsPacked
            | kAudioFormatFlagIsAlignedHigh == DEFAULT_FORMAT_FLAGS) by (bit_vector);
        AudioComponentInstanceHostObject {
            started: false,
            global_stream_format: AudioStreamBasicDescription {
                sample_rate: DEFAULT_SAMPLE_RATE_BITS,
                format_id: kAudioFormatLinearPCM,
                format_flags: kAudioFormatFlagIsFloat | kAudioFormatFlagIsSignedInteger
                    | kAudioFormatFlagIsPacked | kAudioFormatFlagIsAlignedHigh,
                bytes_per_packet: 4,
                frames_per_packet: 1,
                bytes_per_frame: 4,
                channels_per_frame: 2,
                bits_per_channel: 32,
                _reserved: 0,
            },
            output_stream_format: None,
            render_callback: None,
            last_render_time: None,
            al_source: None,
        }
    }
}

pub type AURenderCallback = GuestFunction;

/// The function that supplies an instance with audio data, and the value
/// that is handed to it with each call.
#[derive(Clone, Copy, Debug)]
pub struct AURenderCallbackStruct {
    pub inputProc: AURenderCallback,
    pub inputProcRefCon: ConstVoidPtr,
}

impl SafeRead for AURenderCallbackStruct {
    open spec fn guest_size() -> nat {
        8
    }

    /// Two words: the function, then the value for it.
    open spec fn from_guest(bytes: Seq<u8>) -> Self {
        AURenderCallbackStruct {
            inputProc: GuestFunction { addr: le_u32(bytes.subrange(0, 4)) },
            inputProcRefCon: Ptr { addr: le_u32(bytes.subrange(4, 8)), pointee: PhantomData },
        }
    }

    fn size() -> (n: u32) {
        8
    }

    fn decode(bytes: &[u8]) -> (value: Self) {
        AURenderCallbackStruct {
            inputProc: GuestFunction::from_addr_with_thumb_bit(
                crate::mem::read_le_u32(bytes, 0),
            ),
            inputProcRefCon: Ptr::from_bits(crate::mem::read_le_u32(bytes, 4)),
        }
    }
}

/// What an audio component pointer points at. There is nothing there.
#[derive(Clone, Copy, Debug)]
pub struct OpaqueAudioComponent {}

pub type AudioComponent = MutPtr<OpaqueAudioComponent>;

/// What an instance pointer points at: one byte that only serves to give the
/// instance an address.
#[derive(Clone, Copy, Debug, PartialEq, Eq, Structural)]
pub struct OpaqueAudioComponentInstance {
    pub _pad: u8,
}

impl SafeRead for OpaqueAudioComponentInstance {
    open spec fn guest_size() -> nat {
        1
    }

    open spec fn from_guest(bytes: Seq<u8>) -> Self {
        OpaqueAudioComponentInstance { _pad: bytes[0] }
    }

    fn size() -> (n: u32) {
        1
    }

    fn decode(bytes: &[u8]) -> (value: Self) {
        OpaqueAudioComponentInstance { _pad: bytes[0] }
    }
}

impl SafeWrite for OpaqueAudioComponentInstance {
    open spec fn to_guest(&self) -> Seq<u8> {
        seq![self._pad]
    }

    fn encode(&self) -> (bytes: Vec<u8>) {
        let mut out: Vec<u8> = Vec::new();
        out.push(self._pad);
        assert(out@ =~= seq![self._pad]);
        out
    }

    proof fn lemma_round_trip(&self) {
    }
}

pub type AudioComponentInstance = MutPtr<OpaqueAudioComponentInstance>;

/// What a program asks of an audio component.
#[derive(Clone, Copy, Debug, PartialEq, Eq, Structural)]
pub struct AudioComponentDescription {
    pub componentType: u32,
    pub componentSubType: u32,
    pub componentManufacturer: u32,
    pub componentFlags: u32,
    pub componentFlagsMask: u32,
}

impl SafeRead for AudioComponentDescription {
    open spec fn guest_size() -> nat {
        20
    }

    /// Five words, in the order of the fields.
    open spec fn from_guest(bytes: Seq<u8>) -> Self {
        AudioComponentDescription {
            componentType: le_u32(bytes.subrange(0, 4)),
            componentSubType: le_u32(bytes.subrange(4, 8)),
            componentManufacturer: le_u32(bytes.subrange(8, 12)),
            componentFlags: le_u32(bytes.subrange(12, 16)),
            componentFlagsMask: le_u32(bytes.subrange(16, 20)),
        }
    }

    fn size() -> (n: u32) {
        20
    }

    fn decode(bytes: &[u8]) -> (value: Self) {
        AudioComponentDescription {
            componentType: crate::mem::read_le_u32(bytes, 0),
            componentSubType: crate::mem::read_le_u32(bytes, 4),
            componentManufacturer: crate::mem::read_le_u32(bytes, 8),
            componentFlags: crate::mem::read_le_u32(bytes, 12),
            componentFlagsMask: crate::mem::read_le_u32(bytes, 16),
        }
    }
}

/// Why an audio component function failed.
#[derive(Clone, Copy, Debug, PartialEq, Eq, Structural)]
pub enum AudioError {
    /// Guest memory refused a read, a write or an allocation.
    Mem(MemError),
    /// The description asks for something other than the output unit.
    UnsupportedComponent,
}

/// Whether a description asks for the output unit.
pub open spec fn is_remote_io(d: AudioComponentDescription) -> bool {
    d.componentType == kAudioUnitType_Output && d.componentSubType == kAudioUnitSubType_RemoteIO
        && d.componentManufacturer == kAudioUnitManufacturer_Apple
}

/// What a search for a component is answered with.
pub open spec fn find_next_result(env: &Environment, inDesc: int) -> Result<
    AudioComponent,
    AudioError,
> {
    match env.mem.access_result(inDesc, 20) {
        Err(e) => Err(AudioError::Mem(e)),
        Ok(_) => if is_remote_io(
            AudioComponentDescription::from_guest(env.mem.contents().subrange(inDesc, inDesc + 20)),
        ) {
            Ok(Ptr { addr: 0, pointee: PhantomData })
        } else {
            Err(AudioError::UnsupportedComponent)
        },
    }
}

/// Finds the component after `inComponent` that meets a description. Only
/// the output unit can be asked for, and it is named by the null pointer.
pub fn AudioComponentFindNext(
    env: &Environment,
    inComponent: AudioComponent,
    inDesc: ConstPtr<AudioComponentDescription>,
) -> (res: Result<AudioComponent, AudioError>)
    requires
        env.wf(),
    ensures
        res == find_next_result(env, inDesc@),
{
    let description = match env.mem.read(inDesc) {
        Ok(description) => description,
        Err(e) => {
            return Err(AudioError::Mem(e));
        },
    };
    if description.componentType != kAudioUnitType_Output || description.componentSubType
        != kAudioUnitSubType_RemoteIO || description.componentManufacturer
        != kAudioUnitManufacturer_Apple {
        return Err(AudioError::UnsupportedComponent);
    }
    Ok(Ptr::null())
}


/// What creating an instance is answered with.
pub open spec fn instance_new_result(env: &Environment, outInstance: int) -> Result<
    OSStatus,
    AudioError,
> {
    match env.mem.access_result(outInstance, 4) {
        Err(e) => Err(AudioError::Mem(e)),
        Ok(_) => if env.mem.fits(1) {
            Ok(0i32)
        } else {
            Err(AudioError::Mem(MemError::OutOfMemory))
        },
    }
}

/// Creates an instance of the output unit: one byte of guest memory to give
/// it an address, a host object with the default settings, and the address
/// written where `outInstance` points. Nothing changes unless all of it can
/// be done.
pub fn AudioComponentInstanceNew(
    env: &mut Environment,
    inComponent: AudioComponent,
    outInstance: MutPtr<AudioComponentInstance>,
) -> (res: Result<OSStatus, AudioError>)
    requires
        old(env).wf(),
    ensures
        final(env).wf(),
        res == instance_new_result(old(env), outInstance@),
        final(env).cpu == old(env).cpu,
        final(env).objc == old(env).objc,
        match res {
            Ok(_) => {
                let instance = old(env).mem.brk() as u32;
                &&& final(env).framework_state.audio_toolbox.audio_components.audio_component_instances@
                    == old(
                    env,
                ).framework_state.audio_toolbox.audio_components.audio_component_instances@.insert(
                    instance,
                    default_host_object(),
                )
                &&& final(env).mem.records() == old(env).mem.records().push(
                    AllocRecord { base: instance, size: 1, live: true },
                )
                &&& final(env).mem.contents().subrange(0, old(env).mem.brk()) == overwrite(
                    old(env).mem.contents(),
                    outInstance@,
                    u32_le(instance),
                )
                &&& final(env).mem.contents()[old(env).mem.brk()] == 0
            },
            Err(_) => *final(env) == *old(env),
        },
{
    match env.mem.check_access(outInstance.to_bits(), 4) {
        Ok(_) => {},
        Err(e) => {
            return Err(AudioError::Mem(e));
        },
    }
    let host_object = AudioComponentInstanceHostObject::default();
    let guest_instance: AudioComponentInstance = match env.mem.alloc_and_write(
        OpaqueAudioComponentInstance { _pad: 0 },
    ) {
        Ok(p) => p,
        Err(e) => {
            return Err(AudioError::Mem(e));
        },
    };
    let ghost mid = env.mem;
    env.framework_state.audio_toolbox.audio_components.audio_component_instances.insert(
        guest_instance.to_bits(),
        host_object,
    );
    proof {
        let i = choose|i: int|
            0 <= i < old(env).mem.records().len() && (#[trigger] old(env).mem.records()[i]).live
                && record_covers(old(env).mem.records()[i], outInstance@, 4);
        assert(env.mem.records()[i] == old(env).mem.records()[i]);
        assert(env.mem.accessible(outInstance@, 4));
        old(env).mem.lemma_ranges(outInstance@, 4);
    }
    let written = env.mem.write(outInstance, guest_instance);
    proof {
        assert(written is Ok);
        let brk = old(env).mem.brk();
        assert(mid.contents().subrange(brk, brk + 1) == seq![0u8]);
        assert(mid.contents().subrange(brk, brk + 1)[0] == mid.contents()[brk]);
        assert(env.mem.contents().subrange(0, brk) =~= overwrite(
            old(env).mem.contents(),
            outInstance@,
            u32_le(guest_instance.addr),
        )) by {
            assert(mid.contents().subrange(0, brk) == old(env).mem.contents());
            assert forall|k: int| 0 <= k < brk implies env.mem.contents().subrange(0, brk)[k]
                == overwrite(old(env).mem.contents(), outInstance@, u32_le(guest_instance.addr))[k] by {
                assert(mid.contents().subrange(0, brk)[k] == mid.contents()[k]);
            }
        }
    }
    Ok(0)
}

/// What disposing of an instance is answered with.
pub open spec fn instance_dispose_result(env: &Environment, inInstance: int) -> Result<
    OSStatus,
    AudioError,
> {
    if inInstance == 0 {
        Ok(paramErr)
    } else {
        match env.mem.free_result(inInstance) {
            Ok(_) => Ok(0i32),
            Err(e) => Err(AudioError::Mem(e)),
        }
    }
}

/// Disposes of an instance: forgets its host object and frees its byte of
/// guest memory. The null pointer is answered with a parameter error.
pub fn AudioComponentInstanceDispose(env: &mut Environment, inInstance: AudioComponentInstance) -> (res:
    Result<OSStatus, AudioError>)
    requires
        old(env).wf(),
    ensures
        final(env).wf(),
        res == instance_dispose_result(old(env), inInstance@),
        final(env).cpu == old(env).cpu,
        final(env).objc == old(env).objc,
        final(env).mem.contents() == old(env).mem.contents(),
        res == Ok::<OSStatus, AudioError>(0i32) ==> {
            &&& final(env).framework_state.audio_toolbox.audio_components.audio_component_instances@
                == old(
                env,
            ).framework_state.audio_toolbox.audio_components.audio_component_instances@.remove(
                inInstance.addr,
            )
            &&& final(env).mem.records() == old(env).mem.records_after_free(inInstance@)
        },
        res != Ok::<OSStatus, AudioError>(0i32) ==> *final(env) == *old(env),
{
    if inInstance.is_null() {
        return Ok(paramErr);
    }
    match env.mem.free(inInstance.cast()) {
        Ok(_) => {},
        Err(e) => {
            return Err(AudioError::Mem(e));
        },
    }
    env.framework_state.audio_toolbox.audio_components.audio_component_instances.remove(
        &inInstance.to_bits(),
    );
    Ok(0)
}

} // verus!
