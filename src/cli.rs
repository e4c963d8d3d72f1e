//! The decisions behind the command line: which options an output may take
//! together, and which may not be given twice.
use vstd::prelude::*;
use crate::mode_db::Resolution;

verus! {

/// The options that each choose how an output's mode is set.
#[derive(PartialEq, Eq, Structural, Clone, Copy, Debug)]
pub enum ModeOption {
    Resolution,
    Auto,
    Off,
}

/// The settings asked for one output.
#[derive(Debug, PartialEq, Eq)]
pub struct OutputArgs {
    pub name: String,
    pub auto: bool,
    pub off: bool,
    pub resolution: Option<Resolution>,
    pub framerate: Option<u32>,
}

/// The whole command line: the outputs, in the order given.
#[derive(Debug)]
pub struct Cli {
    pub outputs: Vec<OutputArgs>,
}

/// The settings of one output as they are read, each at most once.
#[derive(Debug)]
pub struct OutputArgsBuilder {
    pub name: String,
    pub auto: Option<bool>,
    pub off: Option<bool>,
    pub resolution: Option<Resolution>,
    pub framerate: Option<u32>,
}

/// The mode options given, in the order resolution, auto, off.
pub open spec fn mode_group_spec(b: OutputArgsBuilder) -> Seq<ModeOption> {
    (if b.resolution is Some { seq![ModeOption::Resolution] } else { Seq::empty() })
        + (if b.auto is Some { seq![ModeOption::Auto] } else { Seq::empty() })
        + (if b.off is Some { seq![ModeOption::Off] } else { Seq::empty() })
}

impl OutputArgsBuilder {
    pub fn new(name: String) -> (r: OutputArgsBuilder)
        ensures
            r.name == name,
            r.auto is None && r.off is None && r.resolution is None && r.framerate is None,
    {
        OutputArgsBuilder { name, auto: None, off: None, resolution: None, framerate: None }
    }

    /// Sets the resolution, unless it was set already.
    pub fn set_resolution(&mut self, res: Resolution) -> (ok: bool)
        ensures
            ok == (old(self).resolution is None),
            final(self).resolution == (if ok { Some(res) } else { old(self).resolution }),
            final(self).name == old(self).name && final(self).auto == old(self).auto
                && final(self).off == old(self).off && final(self).framerate == old(self).framerate,
    {
        if self.resolution.is_some() {
            return false;
        }
        self.resolution = Some(res);
        true
    }

    /// Asks for the preferred mode, unless it was asked already.
    pub fn set_auto(&mut self) -> (ok: bool)
        ensures
            ok == (old(self).auto is None),
            final(self).auto == (if ok { Some(true) } else { old(self).auto }),
            final(self).name == old(self).name && final(self).resolution == old(self).resolution
                && final(self).off == old(self).off && final(self).framerate == old(self).framerate,
    {
        if self.auto.is_some() {
            return false;
        }
        self.auto = Some(true);
        true
    }

    /// Asks to turn the output off, unless it was asked already.
    pub fn set_off(&mut self) -> (ok: bool)
        ensures
            ok == (old(self).off is None),
            final(self).off == (if ok { Some(true) } else { old(self).off }),
            final(self).name == old(self).name && final(self).resolution == old(self).resolution
                && final(self).auto == old(self).auto && final(self).framerate == old(self).framerate,
    {
        if self.off.is_some() {
            return false;
        }
        self.off = Some(true);
        true
    }

    /// Sets the refresh rate, unless it was set already.
    pub fn set_framerate(&mut self, rate: u32) -> (ok: bool)
        ensures
            ok == (old(self).framerate is None),
            final(self).framerate == (if ok { Some(rate) } else { old(self).framerate }),
            final(self).name == old(self).name && final(self).resolution == old(self).resolution
                && final(self).auto == old(self).auto && final(self).off == old(self).off,
    {
        if self.framerate.is_some() {
            return false;
        }
        self.framerate = Some(rate);
        true
    }

    /// The mode options given, in the order resolution, auto, off.
    pub fn mode_group(&self) -> (r: Vec<ModeOption>)
        ensures
            r@ == mode_group_spec(*self),
    {
        let mut r: Vec<ModeOption> = Vec::new();
        if self.resolution.is_some() {
            r.push(ModeOption::Resolution);
        }
        if self.auto.is_some() {
            r.push(ModeOption::Auto);
        }
        if self.off.is_some() {
            r.push(ModeOption::Off);
        }
        assert(r@ =~= mode_group_spec(*self));
        r
    }

    /// The settings of the output, or the mode options given together when
    /// more than one was.
    pub fn build(self) -> (r: Result<OutputArgs, Vec<ModeOption>>)
        ensures
            r is Err <==> mode_group_spec(self).len() > 1,
            r matches Err(g) ==> g@ == mode_group_spec(self),
            r matches Ok(o) ==> o.name == self.name && o.auto == (self.auto == Some(true))
                && o.off == (self.off == Some(true)) && o.resolution == self.resolution
                && o.framerate == self.framerate,
    {
        let group = self.mode_group();
        if group.len() > 1 {
            return Err(group);
        }
        let auto = match self.auto {
            Some(a) => a,
            None => false,
        };
        let off = match self.off {
            Some(o) => o,
            None => false,
        };
        Ok(OutputArgs { name: self.name, auto, off, resolution: self.resolution, framerate: self.framerate })
    }
}

impl Cli {
    pub fn new() -> (r: Cli)
        ensures
            r.outputs@.len() == 0,
    {
        Cli { outputs: Vec::new() }
    }

    /// Whether an output named `name` was given already.
    pub fn has_output(&self, name: &String) -> (r: bool)
        ensures
            r == exists|i: int| 0 <= i < self.outputs@.len() && (#[trigger] self.outputs@[i]).name@ == name@,
    {
        let mut i: usize = 0;
        while i < self.outputs.len()
            invariant
                i <= self.outputs@.len(),
                forall|j: int| 0 <= j < i ==> (#[trigger] self.outputs@[j]).name@ != name@,
            decreases self.outputs@.len() - i,
        {
            if self.outputs[i].name == *name {
                return true;
            }
            i = i + 1;
        }
        false
    }

    /// Adds an output unless one of that name was given already.
    pub fn add_output(&mut self, out: OutputArgs) -> (ok: bool)
        ensures
            ok == !exists|i: int| 0 <= i < old(self).outputs@.len() && (#[trigger] old(self).outputs@[i]).name@ == out.name@,
            final(self).outputs@ == (if ok { old(self).outputs@.push(out) } else { old(self).outputs@ }),
    {
        if self.has_output(&out.name) {
            return false;
        }
        self.outputs.push(out);
        true
    }
}

} // verus!
