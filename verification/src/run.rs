//! The decisions around the two external tools: the exact argument lists
//! they are invoked with, the reading of their exit, and the fail-fast order
//! of the pipeline's steps. The spawning itself is left to the caller, which
//! hands back the exit code and the captured streams.

use vstd::prelude::*;
use crate::digits::int_dec;
use crate::digits::i32_to_dec;

verus! {

/// How an external tool's run ended: a zero exit with its standard output,
/// a non-zero exit with its standard error, or death by signal (no exit
/// code) with its standard error.
pub enum RunOutcome {
    Success { stdout: Vec<u8> },
    Failed { stderr: Vec<u8> },
    Interrupted { stderr: Vec<u8> },
}

/// Reads an external tool's exit: code zero succeeds and keeps the standard
/// output, any other code fails with the standard error, and a missing code
/// (a signal) is an interruption with the standard error.
pub fn interpret_exit(code: Option<i32>, stdout: Vec<u8>, stderr: Vec<u8>) -> (r: RunOutcome)
    ensures
        code == Some(0i32) ==> (r matches RunOutcome::Success { stdout: o } && o == stdout),
        (code matches Some(c) && c != 0) ==> (r matches RunOutcome::Failed { stderr: s } && s
            == stderr),
        code is None ==> (r matches RunOutcome::Interrupted { stderr: s } && s == stderr),
{
    match code {
        Some(c) => {
            if c == 0 {
                RunOutcome::Success { stdout }
            } else {
                RunOutcome::Failed { stderr }
            }
        },
        None => RunOutcome::Interrupted { stderr },
    }
}

/// The transcoder binary's name: "ffmpeg".
pub open spec fn transcoder_name() -> Seq<u8> {
    seq![102u8, 102, 109, 112, 101, 103]
}

/// The tempo-stretch binary's name: "soundstretch".
pub open spec fn stretcher_name() -> Seq<u8> {
    seq![115u8, 111, 117, 110, 100, 115, 116, 114, 101, 116, 99, 104]
}

/// The fixed intermediate file both tools share: "/tmp/1.wav".
pub open spec fn intermediate_path() -> Seq<u8> {
    seq![47u8, 116, 109, 112, 47, 49, 46, 119, 97, 118]
}

/// The transcoder's arguments: "-y", "-i", the input path, "-acodec",
/// "pcm_s16le", and the intermediate path.
pub open spec fn transcode_args(input: Seq<u8>) -> Seq<Seq<u8>> {
    seq![
        seq![45u8, 121],  // "-y"
        seq![45u8, 105],  // "-i"
        input,
        seq![45u8, 97, 99, 111, 100, 101, 99],  // "-acodec"
        seq![112u8, 99, 109, 95, 115, 49, 54, 108, 101],  // "pcm_s16le"
        intermediate_path(),
    ]
}

/// The stretcher's arguments: the intermediate path, the output path, and
/// "-tempo=" followed by the tempo's decimal text.
pub open spec fn stretch_args(output: Seq<u8>, tempo: int) -> Seq<Seq<u8>> {
    seq![
        intermediate_path(),
        output,
        seq![45u8, 116, 101, 109, 112, 111, 61] + int_dec(tempo),  // "-tempo=<tempo>"
    ]
}

/// The transcoder binary's name as bytes.
pub fn transcoder_program() -> (r: Vec<u8>)
    ensures
        r@ == transcoder_name(),
{
    let r = vec![102u8, 102, 109, 112, 101, 103];
    proof {
        assert(r@ =~= transcoder_name());
    }
    r
}

/// The tempo-stretch binary's name as bytes.
pub fn stretcher_program() -> (r: Vec<u8>)
    ensures
        r@ == stretcher_name(),
{
    let r = vec![115u8, 111, 117, 110, 100, 115, 116, 114, 101, 116, 99, 104];
    proof {
        assert(r@ =~= stretcher_name());
    }
    r
}

/// The transcoder's argument list for a given input path.
pub fn transcoder_args(input: &[u8]) -> (r: Vec<Vec<u8>>)
    ensures
        r@.map_values(|a: Vec<u8>| a@) == transcode_args(input@),
{
    let mut r: Vec<Vec<u8>> = Vec::new();
    r.push(vec![45u8, 121]);
    r.push(vec![45u8, 105]);
    r.push(vstd::slice::slice_to_vec(input));
    r.push(vec![45u8, 97, 99, 111, 100, 101, 99]);
    r.push(vec![112u8, 99, 109, 95, 115, 49, 54, 108, 101]);
    r.push(vec![47u8, 116, 109, 112, 47, 49, 46, 119, 97, 118]);
    proof {
        assert(r@.map_values(|a: Vec<u8>| a@) =~= transcode_args(input@));
    }
    r
}

/// The stretcher's argument list for a given output path and tempo.
pub fn stretcher_args(output: &[u8], tempo: i32) -> (r: Vec<Vec<u8>>)
    ensures
        r@.map_values(|a: Vec<u8>| a@) == stretch_args(output@, tempo as int),
{
    let mut r: Vec<Vec<u8>> = Vec::new();
    r.push(vec![47u8, 116, 109, 112, 47, 49, 46, 119, 97, 118]);
    r.push(vstd::slice::slice_to_vec(output));
    let mut t: Vec<u8> = vec![45u8, 116, 101, 109, 112, 111, 61];
    let ghost prefix = t@;
    let dec = i32_to_dec(tempo);
    let mut j: usize = 0;
    while j < dec.len()
        invariant
            j <= dec@.len(),
            dec@ == int_dec(tempo as int),
            t@ == prefix + dec@.subrange(0, j as int),
        decreases dec@.len() - j,
    {
        t.push(dec[j]);
        proof {
            assert(dec@.subrange(0, j + 1) =~= dec@.subrange(0, j as int).push(dec@[j as int]));
            assert(t@ =~= prefix + dec@.subrange(0, j + 1));
        }
        j += 1;
    }
    proof {
        assert(dec@.subrange(0, dec@.len() as int) =~= dec@);
    }
    r.push(t);
    proof {
        assert(r@.map_values(|a: Vec<u8>| a@) =~= stretch_args(output@, tempo as int));
    }
    r
}

/// The pipeline's steps, in their fixed order: transcode, stretch, rescale.
#[derive(Clone, Copy, Debug, PartialEq, Eq, Structural)]
pub enum Step {
    Convert,
    Stretch,
    Rescale,
    Done,
}

/// The step that follows `s` when `s` succeeds.
pub open spec fn step_after(s: Step) -> Step {
    match s {
        Step::Convert => Step::Stretch,
        Step::Stretch => Step::Rescale,
        Step::Rescale => Step::Done,
        Step::Done => Step::Done,
    }
}

/// The fail-fast schedule: a failed step aborts the run (no later step is
/// attempted), a successful one hands over to the next.
pub fn next_step(cur: Step, succeeded: bool) -> (r: Option<Step>)
    ensures
        succeeded ==> r == Some(step_after(cur)),
        !succeeded ==> r is None,
{
    if succeeded {
        match cur {
            Step::Convert => Some(Step::Stretch),
            Step::Stretch => Some(Step::Rescale),
            Step::Rescale => Some(Step::Done),
            Step::Done => Some(Step::Done),
        }
    } else {
        None
    }
}

} // verus!
