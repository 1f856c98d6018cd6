//! Scheduling multiple phonemes.

use vstd::prelude::*;

use crate::buffer::{AudioBuffer, MidiNote};
use crate::crossfade::{crossfade, spec_crossfade, GrainInterp};
use crate::ipa::Phoneme;
use crate::psola::{psola_constant, spec_out_len, spec_psola};
use crate::samples::{assoc, spec_base_note, spec_sample_seq, SynthError, Voice};
use crate::{RATIO_MAX, RATIO_MIN, SCALE};

verus! {

/// The canonical ID of a specific [`PhonemeInstance`]. Should be mostly
/// treated opaquely, but is an index internally.
#[derive(Clone, Copy, PartialEq, Eq, Structural, Hash, Debug)]
pub struct InstanceId(usize);

impl InstanceId {
    pub fn new(index: usize) -> (r: Self)
        ensures
            r.spec_index() == index,
    {
        InstanceId(index)
    }

    /// The underlying index.
    pub closed spec fn spec_index(self) -> usize {
        self.0
    }

    pub fn index(self) -> (r: usize)
        ensures
            r == self.spec_index(),
    {
        self.0
    }
}

/// Largest semitone magnitude accepted in a schedule, in Q15.
pub const NOTE_CAP: i64 = 0x100_0000_0000;

#[derive(Clone, Copy, PartialEq, Eq, Structural, Debug)]
pub struct PhonemeOptions {
    pub next_transition: Option<TransitionOptions>,
}

#[derive(Clone, Copy, PartialEq, Eq, Structural, Debug)]
pub struct TransitionOptions {
    pub length_grains: usize,
}

#[derive(Clone, Copy, PartialEq, Eq, Structural, Debug)]
pub struct PhonemeInstance {
    pub instance_id: InstanceId,
    pub steady_grains: usize,
    pub phoneme: Phoneme,
    /// Length multiplier, in Q15.
    pub length: i64,
    pub options: PhonemeOptions,
    pub note: MidiNote,
}

impl PhonemeInstance {
    /// The length multiplier and target note are within the accepted
    /// ranges, and a declared transition fits the steady region.
    pub open spec fn wf(&self) -> bool {
        &&& RATIO_MIN <= self.length <= RATIO_MAX
        &&& -NOTE_CAP <= self.note.0 <= NOTE_CAP
        &&& match self.options.next_transition {
            Some(t) => t.length_grains <= self.steady_grains,
            None => true,
        }
    }

    /// Runtime check for [`PhonemeInstance::wf`], for callers outside the
    /// library.
    pub fn is_well_formed(&self) -> (r: bool)
        ensures
            r == self.wf(),
    {
        RATIO_MIN <= self.length && self.length <= RATIO_MAX && -NOTE_CAP <= self.note.0
            && self.note.0 <= NOTE_CAP && (match self.options.next_transition {
            Some(t) => t.length_grains <= self.steady_grains,
            None => true,
        })
    }
}

/// One scheduled grain in the output timeline.
#[derive(Clone, Copy, Debug)]
pub struct GrainEvent {
    /// Identity of the phoneme instance that produced this grain
    pub instance_id: InstanceId,
    /// Source phoneme to read from
    pub source: Phoneme,
    /// How long to play this for. Multiplier, in Q15.
    pub length: i64,
    /// The note that this phoneme should be played at.
    pub note: MidiNote,
    /// Optional interpolation to a target phoneme
    pub interp: Option<GrainInterp>,
}

/// The event scheduled for instance `i` of `instances`: the instance's
/// fields carried over, with an interpolation exactly when the instance
/// declares a transition and a following instance exists.
pub open spec fn spec_event(instances: Seq<PhonemeInstance>, i: int) -> GrainEvent {
    let inst = instances[i];
    GrainEvent {
        instance_id: inst.instance_id,
        source: inst.phoneme,
        length: inst.length,
        note: inst.note,
        interp: match inst.options.next_transition {
            Some(t) => if i + 1 < instances.len() {
                Some(GrainInterp { target_grain: i as usize, fade_len: t.length_grains })
            } else {
                None
            },
            None => None,
        },
    }
}

/// The fully resolved render plan: one event per instance, in order.
pub open spec fn spec_schedule(instances: Seq<PhonemeInstance>) -> Seq<GrainEvent> {
    Seq::new(instances.len(), |i: int| spec_event(instances, i))
}

/// Scheduling is one-to-one and order-preserving: instance `i` yields event
/// `i` with the same phoneme, length and note, and the event interpolates
/// exactly when the instance declares a transition and is not last, with
/// the declared grain length.
pub proof fn lemma_schedule_one_to_one(instances: Seq<PhonemeInstance>)
    ensures
        spec_schedule(instances).len() == instances.len(),
        forall|i: int|
            0 <= i < instances.len() ==> ({
                let e = #[trigger] spec_schedule(instances)[i];
                e.instance_id == instances[i].instance_id && e.source == instances[i].phoneme
                    && e.length == instances[i].length && e.note == instances[i].note
            }),
        forall|i: int|
            0 <= i < instances.len() ==> ((#[trigger] spec_schedule(instances)[i]).interp is Some
                <==> (instances[i].options.next_transition is Some && i + 1 < instances.len())),
        forall|i: int|
            0 <= i < instances.len() && spec_schedule(instances)[i].interp is Some ==> ((
            #[trigger] spec_schedule(instances)[i]).interp->Some_0 == (GrainInterp {
                target_grain: i as usize,
                fade_len: instances[i].options.next_transition->Some_0.length_grains,
            })),
{
}

/// A fully-resolved, linear plan for grain-based synthesis.
/// Voice-agnostic.
#[derive(Clone, Debug)]
pub struct GrainTimeline {
    pub events: Vec<GrainEvent>,
}

impl GrainTimeline {
    /// Every event's length multiplier and note are within the accepted
    /// ranges.
    pub open spec fn wf(&self) -> bool {
        forall|i: int|
            0 <= i < self.events@.len() ==> RATIO_MIN <= (#[trigger] self.events@[i]).length
                <= RATIO_MAX && -NOTE_CAP <= self.events@[i].note.0 <= NOTE_CAP
    }
}

/// Types that expand into a render plan.
pub trait Schedule {
    /// The instances to schedule.
    spec fn spec_instances(&self) -> Seq<PhonemeInstance>;

    /// Expand the ordered instances into concrete render events, one per
    /// instance, in order (see [`spec_schedule`]).
    fn schedule(&self) -> (t: GrainTimeline)
        requires
            forall|i: int|
                0 <= i < self.spec_instances().len() ==> (#[trigger] self.spec_instances()[i]).wf(),
        ensures
            t.events@ == spec_schedule(self.spec_instances()),
            t.wf(),
    ;
}

impl Schedule for Vec<PhonemeInstance> {
    open spec fn spec_instances(&self) -> Seq<PhonemeInstance> {
        self@
    }

    fn schedule(&self) -> (t: GrainTimeline) {
        proof {
            assert forall|k: int| 0 <= k < self@.len() implies (#[trigger] self@[k]).wf() by {
                assert(self.spec_instances()[k].wf());
            }
        }
        let mut out: Vec<GrainEvent> = Vec::new();
        let n = self.len();
        let mut i: usize = 0;
        while i < n
            invariant
                n == self@.len(),
                forall|k: int| 0 <= k < n ==> (#[trigger] self@[k]).wf(),
                i <= n,
                out@.len() == i,
                forall|k: int| 0 <= k < i ==> #[trigger] out@[k] == spec_event(self@, k),
            decreases n - i,
        {
            let inst = self[i];
            let has_next = i + 1 < n;

            let event = match inst.options.next_transition {
                Some(trans) if has_next => GrainEvent {
                    instance_id: inst.instance_id,
                    source: inst.phoneme,
                    length: inst.length,
                    note: inst.note,
                    interp: Some(
                        GrainInterp { target_grain: i, fade_len: trans.length_grains },
                    ),
                },
                _ => GrainEvent {
                    instance_id: inst.instance_id,
                    note: inst.note,
                    source: inst.phoneme,
                    length: inst.length,
                    interp: None,
                },
            };
            out.push(event);
            i += 1;
        }
        proof {
            assert(out@ =~= spec_schedule(self@));
        }
        GrainTimeline { events: out }
    }
}

/// The Q15 pitch ratio that plays a source at `base` back at `note`: two to
/// the semitone difference over twelve, saturating.
pub open spec fn spec_pitch_ratio(note: MidiNote, base: MidiNote) -> int {
    crate::nice::spec_exp2_sat(crate::div_trunc(note.0 - base.0, 12))
}

/// Render state after consuming a prefix of the events: the samples emitted
/// so far and the pitch cache, or the failure that stopped the render. The
/// walk resynthesizes each event's phoneme at its target pitch and length;
/// when the previous event requested a transition, it appends the crossfade
/// of the previous and current resyntheses instead of the current one alone.
pub open spec fn spec_render_from(
    events: Seq<GrainEvent>,
    sample_rate: u32,
    store: Seq<(Phoneme, AudioBuffer)>,
    pitches: Seq<(Phoneme, MidiNote)>,
    out: Seq<i64>,
    last: Option<(Option<GrainInterp>, Seq<i64>)>,
) -> (Result<Seq<i64>, SynthError>, Seq<(Phoneme, MidiNote)>)
    decreases events.len(),
{
    if events.len() == 0 {
        (Ok(out), pitches)
    } else {
        let e = events[0];
        match spec_base_note(store, pitches, sample_rate, e.source) {
            Err(err) => (Err(err), pitches),
            Ok(base) => {
                let pitches2 = if assoc(pitches, e.source) is Some {
                    pitches
                } else {
                    pitches.push((e.source, base))
                };
                match spec_sample_seq(store, e.source) {
                    None => (Err(SynthError::LoadFailure), pitches2),
                    Some(sv) => {
                        if spec_out_len(sv.len() as int, e.length as int) > crate::MAX_LEN {
                            (Err(SynthError::InvalidParameter), pitches2)
                        } else {
                            let cur = spec_psola(
                                sv,
                                sample_rate,
                                spec_pitch_ratio(e.note, base),
                                e.length as int,
                            );
                            if last is Some && last->Some_0.0 is Some {
                                let prev = last->Some_0.1;
                                if prev.len() + cur.len() > crate::MAX_LEN {
                                    (Err(SynthError::InvalidParameter), pitches2)
                                } else {
                                    match spec_crossfade(
                                        prev,
                                        cur,
                                        sample_rate,
                                        last->Some_0.0->Some_0,
                                    ) {
                                        Err(err) => (Err(err), pitches2),
                                        Ok(xf) => spec_render_from(
                                            events.skip(1),
                                            sample_rate,
                                            store,
                                            pitches2,
                                            out + xf,
                                            Some((e.interp, cur)),
                                        ),
                                    }
                                }
                            } else {
                                spec_render_from(
                                    events.skip(1),
                                    sample_rate,
                                    store,
                                    pitches2,
                                    out + cur,
                                    Some((e.interp, cur)),
                                )
                            }
                        }
                    },
                }
            },
        }
    }
}

impl GrainTimeline {
    /// Render the plan against a voice: resynthesize each event's phoneme
    /// at its target pitch and length, crossfading adjacent resyntheses
    /// where the earlier event requested a transition, and concatenate in
    /// order (see [`spec_render_from`]).
    pub fn render(&self, voice: &mut Voice) -> (r: Result<AudioBuffer, SynthError>)
        requires
            old(voice).wf(),
            self.wf(),
        ensures
            final(voice).wf(),
            final(voice).spec_sample_rate() == old(voice).spec_sample_rate(),
            final(voice).spec_store() == old(voice).spec_store(),
            ({
                let rr = spec_render_from(
                    self.events@,
                    old(voice).spec_sample_rate(),
                    old(voice).spec_store(),
                    old(voice).spec_pitches(),
                    Seq::empty(),
                    None,
                );
                &&& final(voice).spec_pitches() == rr.1
                &&& match r {
                    Ok(b) => rr.0 == Ok::<Seq<i64>, SynthError>(b.samples@) && b.sample_rate
                        == old(voice).spec_sample_rate(),
                    Err(e) => rr.0 == Err::<Seq<i64>, SynthError>(e),
                }
            }),
    {
        let ghost sr = voice.spec_sample_rate();
        let ghost store0 = voice.spec_store();
        let ghost rr = spec_render_from(
            self.events@,
            sr,
            store0,
            voice.spec_pitches(),
            Seq::empty(),
            None,
        );

        let mut out: Vec<i64> = Vec::new();
        let mut last: Option<(Option<GrainInterp>, AudioBuffer)> = None;
        let ghost mut last_view: Option<(Option<GrainInterp>, Seq<i64>)> = None;

        let n = self.events.len();
        let mut gi: usize = 0;
        proof {
            assert(self.events@.skip(0) =~= self.events@);
            assert(Seq::<i64>::empty() + Seq::<i64>::empty() =~= Seq::<i64>::empty());
        }
        while gi < n
            invariant
                self.wf(),
                voice.wf(),
                n == self.events@.len(),
                gi <= n,
                voice.spec_sample_rate() == sr,
                voice.spec_store() == store0,
                sr == old(voice).spec_sample_rate(),
                store0 == old(voice).spec_store(),
                rr == spec_render_from(
                    self.events@,
                    sr,
                    store0,
                    old(voice).spec_pitches(),
                    Seq::empty(),
                    None,
                ),
                rr == spec_render_from(
                    self.events@.skip(gi as int),
                    sr,
                    store0,
                    voice.spec_pitches(),
                    out@,
                    last_view,
                ),
                match last {
                    Some(pair) => last_view == Some((pair.0, pair.1.samples@)) && pair.1.wf()
                        && pair.1.sample_rate == sr,
                    None => last_view is None,
                },
            decreases n - gi,
        {
            let e = self.events[gi];
            proof {
                assert(self.events@.skip(gi as int)[0] == e);
                assert(self.events@.skip(gi as int).skip(1) =~= self.events@.skip(gi + 1 as int));
            }

            let base = match voice.base_note(e.source) {
                Ok(nn) => nn,
                Err(err) => {
                    return Err(err);
                },
            };

            let buf = match voice.sample(e.source) {
                Ok(b) => b,
                Err(err) => {
                    return Err(err);
                },
            };

            let diff = e.note.0 - base.0;
            let semi = crate::div_pos(diff, 12);
            let ratio = crate::nice::exp2_q15(semi);

            let in_len = buf.len();
            proof {
                assert(RATIO_MIN <= (#[trigger] self.events@[gi as int]).length <= RATIO_MAX
                    && -NOTE_CAP <= self.events@[gi as int].note.0 <= NOTE_CAP);
                assert(0 <= (in_len as int) * (e.length as int) <= 0x4000_0000int * 0x2000000)
                    by (nonlinear_arith)
                    requires
                        0 <= in_len <= 0x4000_0000,
                        0 < e.length <= 0x2000000,
                ;
            }
            let num: i64 = (in_len as i64) * e.length + (SCALE - 1);
            let fit: i64 = num / SCALE + 4096;
            proof {
                vstd::arithmetic::div_mod::lemma_div_pos_is_pos(
                    in_len as int * e.length + SCALE - 1,
                    SCALE as int,
                );
            }
            if fit > crate::MAX_LEN as i64 {
                return Err(SynthError::InvalidParameter);
            }

            let cur = psola_constant(&buf, ratio, e.length);

            let mut spliced = false;
            if let Some(pair) = &last {
                if let Some(iv) = pair.0 {
                    if pair.1.len() + cur.len() > crate::MAX_LEN {
                        return Err(SynthError::InvalidParameter);
                    }
                    let xf = match crossfade(&pair.1, &cur, &iv) {
                        Ok(b) => b,
                        Err(err) => {
                            return Err(err);
                        },
                    };
                    crate::buffer::append_samples(&mut out, &xf.samples);
                    spliced = true;
                }
            }
            if !spliced {
                crate::buffer::append_samples(&mut out, &cur.samples);
            }

            proof {
                last_view = Some((e.interp, cur.samples@));
            }
            last = Some((e.interp, cur));
            gi += 1;
        }
        proof {
            assert(self.events@.skip(n as int) =~= Seq::<GrainEvent>::empty());
        }
        Ok(AudioBuffer { sample_rate: voice.sample_rate(), samples: out })
    }
}

} // verus!
