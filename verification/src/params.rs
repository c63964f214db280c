use vstd::prelude::*;

use crate::text_order::same_text;

verus! {

/// Oversampling choices offered by the plugin.
#[derive(Clone, Copy, PartialEq, Eq, Structural, Debug)]
pub enum OversamplingMode {
    Off,
    X2,
    X4,
    X6,
    X8,
}

/// How many samples each input sample is expanded to.
pub open spec fn oversampling_factor(mode: OversamplingMode) -> nat {
    match mode {
        OversamplingMode::Off => 1,
        OversamplingMode::X2 => 2,
        OversamplingMode::X4 => 4,
        OversamplingMode::X6 => 6,
        OversamplingMode::X8 => 8,
    }
}

impl OversamplingMode {
    /// The oversampling factor of this mode.
    pub fn factor(self) -> (r: usize)
        ensures
            r == oversampling_factor(self),
    {
        match self {
            OversamplingMode::Off => 1,
            OversamplingMode::X2 => 2,
            OversamplingMode::X4 => 4,
            OversamplingMode::X6 => 6,
            OversamplingMode::X8 => 8,
        }
    }

    /// The text under which the mode is offered in the oversampling menu.
    pub fn menu_label(self) -> (r: &'static str)
        ensures
            r@ == oversampling_menu_label(self),
    {
        match self {
            OversamplingMode::Off => "Off",
            OversamplingMode::X2 => "2x",
            OversamplingMode::X4 => "4x",
            OversamplingMode::X6 => "6x",
            OversamplingMode::X8 => "8x",
        }
    }
}

/// The menu text of each oversampling mode.
pub open spec fn oversampling_menu_label(mode: OversamplingMode) -> Seq<char> {
    match mode {
        OversamplingMode::Off => "Off"@,
        OversamplingMode::X2 => "2x"@,
        OversamplingMode::X4 => "4x"@,
        OversamplingMode::X6 => "6x"@,
        OversamplingMode::X8 => "8x"@,
    }
}

/// The continuous parameters that a MIDI controller can be mapped to.
#[derive(Clone, Copy, PartialEq, Eq, Structural, Debug)]
pub enum ParamTarget {
    InputLevel,
    OutputLevel,
    Harmonics,
    Frequency,
    Slope,
    Odd,
    Even,
    Mix,
}

/// The parameter that a stable parameter id names, if any.
pub open spec fn param_target_of_id(id: Seq<char>) -> Option<ParamTarget> {
    if id == "in-level"@ {
        Some(ParamTarget::InputLevel)
    } else if id == "out-level"@ {
        Some(ParamTarget::OutputLevel)
    } else if id == "harmonics"@ {
        Some(ParamTarget::Harmonics)
    } else if id == "frequency"@ {
        Some(ParamTarget::Frequency)
    } else if id == "slope"@ {
        Some(ParamTarget::Slope)
    } else if id == "odd"@ {
        Some(ParamTarget::Odd)
    } else if id == "even"@ {
        Some(ParamTarget::Even)
    } else if id == "mix"@ {
        Some(ParamTarget::Mix)
    } else {
        None
    }
}

impl ParamTarget {
    /// Resolves a stable parameter id to the parameter it names.
    pub fn from_id(id: &str) -> (r: Option<ParamTarget>)
        ensures
            r == param_target_of_id(id@),
    {
        if same_text(id, "in-level") {
            Some(ParamTarget::InputLevel)
        } else if same_text(id, "out-level") {
            Some(ParamTarget::OutputLevel)
        } else if same_text(id, "harmonics") {
            Some(ParamTarget::Harmonics)
        } else if same_text(id, "frequency") {
            Some(ParamTarget::Frequency)
        } else if same_text(id, "slope") {
            Some(ParamTarget::Slope)
        } else if same_text(id, "odd") {
            Some(ParamTarget::Odd)
        } else if same_text(id, "even") {
            Some(ParamTarget::Even)
        } else if same_text(id, "mix") {
            Some(ParamTarget::Mix)
        } else {
            None
        }
    }
}

/// Only the eight continuous-parameter ids name a parameter, each its own
/// one; every other id (such as the bypass or phase switch) names none.
pub proof fn law_param_ids(id: Seq<char>)
    ensures
        param_target_of_id(id) is Some ==> (id == "in-level"@ || id == "out-level"@ || id
            == "harmonics"@ || id == "frequency"@ || id == "slope"@ || id == "odd"@ || id
            == "even"@ || id == "mix"@),
        id == "in-level"@ ==> param_target_of_id(id) == Some(ParamTarget::InputLevel),
        id == "out-level"@ ==> param_target_of_id(id) == Some(ParamTarget::OutputLevel),
        id == "harmonics"@ ==> param_target_of_id(id) == Some(ParamTarget::Harmonics),
        id == "frequency"@ ==> param_target_of_id(id) == Some(ParamTarget::Frequency),
        id == "slope"@ ==> param_target_of_id(id) == Some(ParamTarget::Slope),
        id == "odd"@ ==> param_target_of_id(id) == Some(ParamTarget::Odd),
        id == "even"@ ==> param_target_of_id(id) == Some(ParamTarget::Even),
        id == "mix"@ ==> param_target_of_id(id) == Some(ParamTarget::Mix),
{
    reveal_strlit("in-level");
    reveal_strlit("out-level");
    reveal_strlit("harmonics");
    reveal_strlit("frequency");
    reveal_strlit("slope");
    reveal_strlit("odd");
    reveal_strlit("even");
    reveal_strlit("mix");
    assert("in-level"@.len() == 8);
    assert("out-level"@.len() == 9 && "harmonics"@.len() == 9 && "frequency"@.len() == 9);
    assert("slope"@.len() == 5 && "even"@.len() == 4);
    assert("odd"@.len() == 3 && "mix"@.len() == 3);
    assert("out-level"@[0] != "harmonics"@[0] && "out-level"@[0] != "frequency"@[0]);
    assert("harmonics"@[0] != "frequency"@[0]);
    assert("odd"@[0] != "mix"@[0]);
}

/// Different ids never name the same parameter.
pub proof fn law_param_ids_distinct(a: Seq<char>, b: Seq<char>)
    requires
        param_target_of_id(a) is Some,
        param_target_of_id(a) == param_target_of_id(b),
    ensures
        a == b,
{
    law_param_ids(a);
    law_param_ids(b);
}

} // verus!
