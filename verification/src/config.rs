//! The run's configuration: tempo, input path, output path, resolved once
//! from layered sources. Layers are ordered from lowest to highest
//! precedence (environment, then an optional configuration file, then the
//! command line); the highest layer that sets a field wins, and built-in
//! defaults back everything.

use vstd::prelude::*;

verus! {

/// The resolved configuration of one run.
pub struct Config {
    /// The tempo change, in percent; negative slows the audio down.
    pub tempo: i32,
    /// The input audio path.
    pub input_file: Vec<u8>,
    /// The output audio path.
    pub output_file: Vec<u8>,
}

/// What one configuration source had to say: any subset of the fields.
pub struct ConfigLayer {
    pub tempo: Option<i32>,
    pub input_file: Option<Vec<u8>>,
    pub output_file: Option<Vec<u8>>,
}

/// The default tempo: slow down by fifteen percent.
pub open spec fn default_tempo() -> i32 {
    -15i32
}

/// The default input path: "in.wav".
pub open spec fn default_input() -> Seq<u8> {
    seq![105u8, 110, 46, 119, 97, 118]
}

/// The default output path: "out.wav".
pub open spec fn default_output() -> Seq<u8> {
    seq![111u8, 117, 116, 46, 119, 97, 118]
}

/// The tempo the layers resolve to: the last layer that sets it wins.
pub open spec fn pick_tempo(ls: Seq<ConfigLayer>) -> i32
    decreases ls.len(),
{
    if ls.len() == 0 {
        default_tempo()
    } else {
        match ls.last().tempo {
            Some(t) => t,
            None => pick_tempo(ls.drop_last()),
        }
    }
}

/// The input path the layers resolve to: the last layer that sets it wins.
pub open spec fn pick_input(ls: Seq<ConfigLayer>) -> Seq<u8>
    decreases ls.len(),
{
    if ls.len() == 0 {
        default_input()
    } else {
        match ls.last().input_file {
            Some(f) => f@,
            None => pick_input(ls.drop_last()),
        }
    }
}

/// The output path the layers resolve to: the last layer that sets it wins.
pub open spec fn pick_output(ls: Seq<ConfigLayer>) -> Seq<u8>
    decreases ls.len(),
{
    if ls.len() == 0 {
        default_output()
    } else {
        match ls.last().output_file {
            Some(f) => f@,
            None => pick_output(ls.drop_last()),
        }
    }
}

/// Resolves the configuration from its layers, lowest precedence first:
/// for each field the highest layer that sets it wins, and a field nobody
/// sets keeps its default.
pub fn resolve_config(layers: Vec<ConfigLayer>) -> (r: Config)
    ensures
        r.tempo == pick_tempo(layers@),
        r.input_file@ == pick_input(layers@),
        r.output_file@ == pick_output(layers@),
{
    let ghost orig = layers@;
    let mut rest = layers;
    let mut ct: Option<i32> = None;
    let mut cin: Option<Vec<u8>> = None;
    let mut cout: Option<Vec<u8>> = None;
    while rest.len() > 0
        invariant
            pick_tempo(orig) == match ct {
                Some(t) => t,
                None => pick_tempo(rest@),
            },
            pick_input(orig) == match cin {
                Some(f) => f@,
                None => pick_input(rest@),
            },
            pick_output(orig) == match cout {
                Some(f) => f@,
                None => pick_output(rest@),
            },
        decreases rest@.len(),
    {
        let ghost before = rest@;
        let l = rest.pop().unwrap();
        proof {
            assert(l == before.last());
            assert(rest@ == before.drop_last());
        }
        if ct.is_none() {
            ct = l.tempo;
        }
        if cin.is_none() {
            cin = l.input_file;
        }
        if cout.is_none() {
            cout = l.output_file;
        }
    }
    let tempo: i32 = match ct {
        Some(t) => t,
        None => -15,
    };
    let input_file: Vec<u8> = match cin {
        Some(f) => f,
        None => {
            let d = vec![105u8, 110, 46, 119, 97, 118];
            proof {
                assert(d@ =~= default_input());
            }
            d
        },
    };
    let output_file: Vec<u8> = match cout {
        Some(f) => f,
        None => {
            let d = vec![111u8, 117, 116, 46, 119, 97, 118];
            proof {
                assert(d@ =~= default_output());
            }
            d
        },
    };
    Config { tempo, input_file, output_file }
}

} // verus!
