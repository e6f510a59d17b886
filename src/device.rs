//! Command lines of the EiBotBoard pen-plotter protocol: each command is
//! its name, then its arguments in decimal, each after a comma, then a
//! carriage return.
use vstd::prelude::*;

verus! {

/// Which step counters a move clears before it starts.
#[derive(Clone, Copy, Debug, PartialEq, Eq, Structural)]
pub enum Clear {
    Neither,
    Motor1,
    Motor2,
    Both,
}

/// Parameters that the stepper and servo configuration command sets.
#[derive(Clone, Copy, Debug, PartialEq, Eq, Structural)]
pub enum ConfigParam {
    PenLift,
    StepperSignal,
    ServoMin,
    ServoMax,
    S2MaximumChannels,
    S2ChannelDurationMS,
    ServoRate,
    ServoRateUp,
    ServoRateDown,
    UseAltPrg,
}

/// Motor 1 state, and the global step mode it sets.
#[derive(Debug, Clone, Copy, PartialEq, Eq, Structural)]
pub enum EnableMotor1Setting {
    DisableMotor1,
    /// Enable motor 1, set global step mode to 1/16 step mode (default upon reset)
    EnableMotor1_16,
    /// Enable motor 1, set global step mode to 1/8 step mode
    EnableMotor1_8,
    /// Enable motor 1, set global step mode to 1/4 step mode
    EnableMotor1_4,
    /// Enable motor 1, set global step mode to 1/2 step mode
    EnableMotor1_2,
    /// Enable motor 1, set global step mode to full step mode
    EnableMotor1Full,
}

/// Motor 2 state.
#[derive(Debug, Clone, Copy, PartialEq, Eq, Structural)]
pub enum EnableMotor2Setting {
    DisableMotor2,
    EnableMotor2,
}

/// Pen positions that the pen command moves to.
#[derive(Clone, Copy, Debug, PartialEq, Eq, Structural)]
pub enum PenSetting {
    /// Pen down position, queued.
    QueueMoveToMax,
    /// Pen up position, queued.
    QueueMoveToMin,
    ImmediateMoveToMin,
    ImmediateMoveToMinReset,
}

/// The protocol's number for the setting.
pub open spec fn clear_code(c: Clear) -> nat {
    match c {
        Clear::Neither => 0,
        Clear::Motor1 => 1,
        Clear::Motor2 => 2,
        Clear::Both => 3,
    }
}

/// The protocol's number for the parameter.
pub open spec fn config_code(c: ConfigParam) -> nat {
    match c {
        ConfigParam::PenLift => 1,
        ConfigParam::StepperSignal => 2,
        ConfigParam::ServoMin => 4,
        ConfigParam::ServoMax => 5,
        ConfigParam::S2MaximumChannels => 8,
        ConfigParam::S2ChannelDurationMS => 9,
        ConfigParam::ServoRate => 10,
        ConfigParam::ServoRateUp => 11,
        ConfigParam::ServoRateDown => 12,
        ConfigParam::UseAltPrg => 13,
    }
}

/// The protocol's number for the setting.
pub open spec fn motor1_code(m: EnableMotor1Setting) -> nat {
    match m {
        EnableMotor1Setting::DisableMotor1 => 0,
        EnableMotor1Setting::EnableMotor1_16 => 1,
        EnableMotor1Setting::EnableMotor1_8 => 2,
        EnableMotor1Setting::EnableMotor1_4 => 3,
        EnableMotor1Setting::EnableMotor1_2 => 4,
        EnableMotor1Setting::EnableMotor1Full => 5,
    }
}

/// The protocol's number for the setting.
pub open spec fn motor2_code(m: EnableMotor2Setting) -> nat {
    match m {
        EnableMotor2Setting::DisableMotor2 => 0,
        EnableMotor2Setting::EnableMotor2 => 1,
    }
}

/// The protocol's number for the setting.
pub open spec fn pen_code(p: PenSetting) -> nat {
    match p {
        PenSetting::QueueMoveToMax => 0,
        PenSetting::QueueMoveToMin => 1,
        PenSetting::ImmediateMoveToMin => 2,
        PenSetting::ImmediateMoveToMinReset => 3,
    }
}

/// The ASCII decimal digits of `n`, most significant first.
pub open spec fn decimal(n: nat) -> Seq<u8>
    decreases n,
{
    if n < 10 {
        seq![(48 + n) as u8]
    } else {
        decimal(n / 10).push((48 + n % 10) as u8)
    }
}

/// Each argument in decimal, each after a comma.
pub open spec fn with_args(args: Seq<nat>) -> Seq<u8>
    decreases args.len(),
{
    if args.len() == 0 {
        Seq::empty()
    } else {
        with_args(args.drop_last()) + seq![44u8] + decimal(args.last())
    }
}

/// The command line: name, arguments, carriage return.
pub open spec fn command(name: Seq<u8>, args: Seq<nat>) -> Seq<u8> {
    name + with_args(args) + seq![13u8]
}

fn push_decimal(out: &mut Vec<u8>, n: u64)
    ensures
        final(out)@ == old(out)@ + decimal(n as nat),
    decreases n,
{
    if n >= 10 {
        push_decimal(out, n / 10);
    }
    out.push((48 + n % 10) as u8);
    assert(final(out)@ =~= old(out)@ + decimal(n as nat));
}

fn encode(name: Vec<u8>, args: Vec<u64>) -> (r: Vec<u8>)
    ensures
        r@ == command(name@, args@.map_values(|a: u64| a as nat)),
{
    let ghost nats = args@.map_values(|a: u64| a as nat);
    let mut out = name;
    let mut i: usize = 0;
    assert(nats.take(0) =~= Seq::<nat>::empty());
    assert(out@ =~= name@ + with_args(nats.take(0)));
    while i < args.len()
        invariant
            nats == args@.map_values(|a: u64| a as nat),
            i <= args@.len(),
            out@ == name@ + with_args(nats.take(i as int)),
        decreases args@.len() - i,
    {
        out.push(44);
        push_decimal(&mut out, args[i]);
        assert(nats.take(i + 1).drop_last() =~= nats.take(i as int));
        assert(out@ =~= name@ + with_args(nats.take(i + 1)));
        i = i + 1;
    }
    out.push(13);
    assert(nats.take(i as int) =~= nats);
    assert(out@ =~= command(name@, nats));
    out
}

impl Clear {
    /// The protocol's number for the value.
    pub fn code(&self) -> (r: u64)
        ensures
            r == clear_code(*self),
    {
        match self {
            Clear::Neither => 0,
            Clear::Motor1 => 1,
            Clear::Motor2 => 2,
            Clear::Both => 3,
        }
    }
}

impl ConfigParam {
    /// The protocol's number for the value.
    pub fn code(&self) -> (r: u64)
        ensures
            r == config_code(*self),
    {
        match self {
            ConfigParam::PenLift => 1,
            ConfigParam::StepperSignal => 2,
            ConfigParam::ServoMin => 4,
            ConfigParam::ServoMax => 5,
            ConfigParam::S2MaximumChannels => 8,
            ConfigParam::S2ChannelDurationMS => 9,
            ConfigParam::ServoRate => 10,
            ConfigParam::ServoRateUp => 11,
            ConfigParam::ServoRateDown => 12,
            ConfigParam::UseAltPrg => 13,
        }
    }
}

impl EnableMotor1Setting {
    /// The protocol's number for the value.
    pub fn code(&self) -> (r: u64)
        ensures
            r == motor1_code(*self),
    {
        match self {
            EnableMotor1Setting::DisableMotor1 => 0,
            EnableMotor1Setting::EnableMotor1_16 => 1,
            EnableMotor1Setting::EnableMotor1_8 => 2,
            EnableMotor1Setting::EnableMotor1_4 => 3,
            EnableMotor1Setting::EnableMotor1_2 => 4,
            EnableMotor1Setting::EnableMotor1Full => 5,
        }
    }
}

impl EnableMotor2Setting {
    /// The protocol's number for the value.
    pub fn code(&self) -> (r: u64)
        ensures
            r == motor2_code(*self),
    {
        match self {
            EnableMotor2Setting::DisableMotor2 => 0,
            EnableMotor2Setting::EnableMotor2 => 1,
        }
    }
}

impl PenSetting {
    /// The protocol's number for the value.
    pub fn code(&self) -> (r: u64)
        ensures
            r == pen_code(*self),
    {
        match self {
            PenSetting::QueueMoveToMax => 0,
            PenSetting::QueueMoveToMin => 1,
            PenSetting::ImmediateMoveToMin => 2,
            PenSetting::ImmediateMoveToMinReset => 3,
        }
    }
}

/// The commands of an EiBotBoard, as the bytes sent to it.
pub struct EBBDevice {}

impl EBBDevice {
    /// Stepper move for a mixed-axis geometry.
    pub fn xm(duration_ms: u32, axis_steps_a: u32, axis_steps_b: u32, clear: Clear) -> (r: Vec<u8>)
        ensures
            r@ == command(
                seq![88u8, 77u8],
                seq![duration_ms as nat, axis_steps_a as nat, axis_steps_b as nat, clear_code(clear)],
            ),
    {
        let args = vec![duration_ms as u64, axis_steps_a as u64, axis_steps_b as u64, clear.code()];
        let r = encode(vec![88u8, 77u8], args);
        assert(args@.map_values(|a: u64| a as nat) =~= seq![duration_ms as nat, axis_steps_a as nat, axis_steps_b as nat, clear_code(clear)]);
        r
    }

    /// Stepper and servo mode configure.
    pub fn sc(config_param: ConfigParam, value: u16) -> (r: Vec<u8>)
        ensures
            r@ == command(seq![83u8, 67u8], seq![config_code(config_param), value as nat]),
    {
        let args = vec![config_param.code(), value as u64];
        let r = encode(vec![83u8, 67u8], args);
        assert(args@.map_values(|a: u64| a as nat) =~= seq![config_code(config_param), value as nat]);
        r
    }

    /// Clear step position.
    pub fn cs() -> (r: Vec<u8>)
        ensures
            r@ == command(seq![67u8, 83u8], seq![]),
    {
        let r = encode(vec![67u8, 83u8], Vec::new());
        assert(Seq::<u64>::empty().map_values(|a: u64| a as nat) =~= Seq::<nat>::empty());
        r
    }

    /// Version query.
    pub fn v() -> (r: Vec<u8>)
        ensures
            r@ == command(seq![86u8], seq![]),
    {
        let r = encode(vec![86u8], Vec::new());
        assert(Seq::<u64>::empty().map_values(|a: u64| a as nat) =~= Seq::<nat>::empty());
        r
    }

    /// Enable motors.
    pub fn em(motor1: EnableMotor1Setting, motor2: EnableMotor2Setting) -> (r: Vec<u8>)
        ensures
            r@ == command(seq![69u8, 77u8], seq![motor1_code(motor1), motor2_code(motor2)]),
    {
        let args = vec![motor1.code(), motor2.code()];
        let r = encode(vec![69u8, 77u8], args);
        assert(args@.map_values(|a: u64| a as nat) =~= seq![motor1_code(motor1), motor2_code(motor2)]);
        r
    }

    /// Emergency stop; 1 also disables the motors.
    pub fn es(disable_motors: bool) -> (r: Vec<u8>)
        ensures
            r@ == command(seq![69u8, 83u8], seq![if disable_motors { 1nat } else { 0nat }]),
    {
        let flag: u64 = if disable_motors { 1 } else { 0 };
        let args = vec![flag];
        let r = encode(vec![69u8, 83u8], args);
        assert(args@.map_values(|a: u64| a as nat) =~= seq![if disable_motors { 1nat } else { 0nat }]);
        r
    }

    /// Query motors.
    pub fn qm() -> (r: Vec<u8>)
        ensures
            r@ == command(seq![81u8, 77u8], seq![]),
    {
        let r = encode(vec![81u8, 77u8], Vec::new());
        assert(Seq::<u64>::empty().map_values(|a: u64| a as nat) =~= Seq::<nat>::empty());
        r
    }

    /// Query step position.
    pub fn qs() -> (r: Vec<u8>)
        ensures
            r@ == command(seq![81u8, 83u8], seq![]),
    {
        let r = encode(vec![81u8, 83u8], Vec::new());
        assert(Seq::<u64>::empty().map_values(|a: u64| a as nat) =~= Seq::<nat>::empty());
        r
    }

    /// Set pen state, taking `duration_ms` milliseconds.
    pub fn sp(setting: PenSetting, duration_ms: u16) -> (r: Vec<u8>)
        ensures
            r@ == command(seq![83u8, 80u8], seq![pen_code(setting), duration_ms as nat]),
    {
        let args = vec![setting.code(), duration_ms as u64];
        let r = encode(vec![83u8, 80u8], args);
        assert(args@.map_values(|a: u64| a as nat) =~= seq![pen_code(setting), duration_ms as nat]);
        r
    }
}

} // verus!
