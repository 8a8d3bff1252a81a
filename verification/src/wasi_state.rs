//! The state a WASI guest starts from: its arguments and its environment.
use crate::journal::codec::extend_bytes;
use crate::journal::entry::clone_bytes;
use vstd::prelude::*;

verus! {

/// Why a state could not be built.
#[derive(Clone, Copy, Debug, PartialEq, Eq, Structural)]
pub enum WasiStateCreationError {
    /// The key of an environment variable holds `=` or a zero byte, or its
    /// value holds a zero byte.
    EnvironmentVariableFormatError,
    /// An argument holds a zero byte.
    ArgumentContainsNulByte,
}

/// Collects what a state is built from.
#[derive(Debug)]
pub struct WasiStateBuilder {
    args: Vec<Vec<u8>>,
    envs: Vec<(Vec<u8>, Vec<u8>)>,
}

/// What a builder has collected, read as sequences.
pub struct WasiStateBuilderView {
    /// The arguments, the name of the program first.
    pub args: Seq<Seq<u8>>,
    /// The environment variables: key and value.
    pub envs: Seq<(Seq<u8>, Seq<u8>)>,
}

/// The state a guest starts from.
#[derive(Debug)]
pub struct WasiState {
    args: Vec<Vec<u8>>,
    envs: Vec<Vec<u8>>,
}

/// What a state is, read as sequences.
pub struct WasiStateView {
    /// The arguments, the name of the program first.
    pub args: Seq<Seq<u8>>,
    /// The environment variables, each as `KEY=VALUE`.
    pub envs: Seq<Seq<u8>>,
}

/// The views of a run of buffers.
pub open spec fn spec_buffer_views(buffers: Seq<Vec<u8>>) -> Seq<Seq<u8>> {
    Seq::new(buffers.len(), |i: int| buffers[i]@)
}

/// The views of a run of pairs of buffers.
pub open spec fn spec_pair_views(pairs: Seq<(Vec<u8>, Vec<u8>)>) -> Seq<(Seq<u8>, Seq<u8>)> {
    Seq::new(pairs.len(), |i: int| (pairs[i].0@, pairs[i].1@))
}

/// Whether an environment variable can be handed to a guest.
pub open spec fn spec_env_ok(pair: (Seq<u8>, Seq<u8>)) -> bool {
    !pair.0.contains(0u8) && !pair.0.contains(61u8) && !pair.1.contains(0u8)
}

/// An environment variable as a guest reads it: `KEY=VALUE`.
pub open spec fn spec_env_line(pair: (Seq<u8>, Seq<u8>)) -> Seq<u8> {
    pair.0 + seq![61u8] + pair.1
}

/// Buffers laid end to end, each closed by a zero byte, as WASI hands
/// arguments and environment to a guest.
pub open spec fn spec_terminated(buffers: Seq<Seq<u8>>, upto: int) -> Seq<u8>
    decreases upto,
{
    if upto <= 0 {
        Seq::empty()
    } else {
        spec_terminated(buffers, upto - 1) + buffers[upto - 1] + seq![0u8]
    }
}

impl WasiStateBuilderView {
    /// What building gives: the state, or why there is none. Arguments are
    /// looked at before the environment.
    pub open spec fn build(self) -> Result<WasiStateView, WasiStateCreationError> {
        if exists|i: int| 0 <= i < self.args.len() && (#[trigger] self.args[i]).contains(0u8) {
            Err(WasiStateCreationError::ArgumentContainsNulByte)
        } else if exists|i: int| 0 <= i < self.envs.len() && !spec_env_ok(#[trigger] self.envs[i]) {
            Err(WasiStateCreationError::EnvironmentVariableFormatError)
        } else {
            Ok(
                WasiStateView {
                    args: self.args,
                    envs: Seq::new(self.envs.len(), |i: int| spec_env_line(self.envs[i])),
                },
            )
        }
    }
}

/// Whether a buffer holds a byte.
pub fn holds_byte(buffer: &Vec<u8>, byte: u8) -> (found: bool)
    ensures
        found == buffer@.contains(byte),
{
    let mut i: usize = 0;
    while i < buffer.len()
        invariant
            i <= buffer@.len(),
            forall|j: int| 0 <= j < i ==> buffer@[j] != byte,
        decreases buffer@.len() - i,
    {
        if buffer[i] == byte {
            return true;
        }
        i = i + 1;
    }
    false
}

/// A copy of a run of buffers.
pub fn clone_buffers(buffers: &Vec<Vec<u8>>) -> (copy: Vec<Vec<u8>>)
    ensures
        spec_buffer_views(copy@) == spec_buffer_views(buffers@),
{
    let mut copy: Vec<Vec<u8>> = Vec::new();
    let mut i: usize = 0;
    while i < buffers.len()
        invariant
            i <= buffers@.len(),
            copy@.len() == i,
            forall|j: int| 0 <= j < i ==> copy@[j]@ == buffers@[j]@,
        decreases buffers@.len() - i,
    {
        copy.push(clone_bytes(&buffers[i]));
        i = i + 1;
    }
    assert(spec_buffer_views(copy@) =~= spec_buffer_views(buffers@));
    copy
}

/// Buffers laid end to end, each closed by a zero byte.
pub fn terminated(buffers: &Vec<Vec<u8>>) -> (bytes: Vec<u8>)
    ensures
        bytes@ == spec_terminated(spec_buffer_views(buffers@), buffers@.len() as int),
{
    let mut bytes: Vec<u8> = Vec::new();
    let mut i: usize = 0;
    while i < buffers.len()
        invariant
            i <= buffers@.len(),
            bytes@ == spec_terminated(spec_buffer_views(buffers@), i as int),
        decreases buffers@.len() - i,
    {
        extend_bytes(&mut bytes, buffers[i].as_slice());
        bytes.push(0);
        i = i + 1;
        assert(spec_buffer_views(buffers@)[i - 1] == buffers@[i - 1]@);
    }
    bytes
}

impl View for WasiStateBuilder {
    type V = WasiStateBuilderView;

    closed spec fn view(&self) -> WasiStateBuilderView {
        WasiStateBuilderView {
            args: spec_buffer_views(self.args@),
            envs: spec_pair_views(self.envs@),
        }
    }
}

impl View for WasiState {
    type V = WasiStateView;

    closed spec fn view(&self) -> WasiStateView {
        WasiStateView {
            args: spec_buffer_views(self.args@),
            envs: spec_buffer_views(self.envs@),
        }
    }
}

impl WasiStateBuilder {
    /// A builder for a program of this name. The name is the first
    /// argument.
    pub fn new(program_name: &[u8]) -> (builder: WasiStateBuilder)
        ensures
            builder@.args == seq![program_name@],
            builder@.envs == Seq::<(Seq<u8>, Seq<u8>)>::empty(),
    {
        let mut name: Vec<u8> = Vec::new();
        extend_bytes(&mut name, program_name);
        let mut args: Vec<Vec<u8>> = Vec::new();
        args.push(name);
        let builder = WasiStateBuilder { args, envs: Vec::new() };
        assert(builder@.args =~= seq![program_name@]);
        assert(builder@.envs =~= Seq::<(Seq<u8>, Seq<u8>)>::empty());
        builder
    }

    /// Adds an environment variable, behind those added before.
    pub fn env(&mut self, key: &[u8], value: &[u8])
        ensures
            final(self)@ == (WasiStateBuilderView {
                envs: old(self)@.envs.push((key@, value@)),
                ..old(self)@
            }),
    {
        let mut k: Vec<u8> = Vec::new();
        extend_bytes(&mut k, key);
        let mut v: Vec<u8> = Vec::new();
        extend_bytes(&mut v, value);
        self.envs.push((k, v));
        assert(self@.envs =~= old(self)@.envs.push((key@, value@)));
    }

    /// Adds an argument, behind those added before.
    pub fn arg(&mut self, arg: &[u8])
        ensures
            final(self)@ == (WasiStateBuilderView {
                args: old(self)@.args.push(arg@),
                ..old(self)@
            }),
    {
        let mut a: Vec<u8> = Vec::new();
        extend_bytes(&mut a, arg);
        self.args.push(a);
        assert(self@.args =~= old(self)@.args.push(arg@));
    }

    /// Builds the state. An argument with a zero byte, or an environment
    /// variable that cannot be told from its neighbours once it is laid
    /// out, is refused.
    pub fn build(self) -> (res: Result<WasiState, WasiStateCreationError>)
        ensures
            match self@.build() {
                Ok(state) => res.is_ok() && res.unwrap()@ == state,
                Err(err) => res == Err::<WasiState, WasiStateCreationError>(err),
            },
    {
        let ghost view = self@;
        let mut i: usize = 0;
        while i < self.args.len()
            invariant
                i <= self.args@.len(),
                view == self@,
                forall|j: int| 0 <= j < i ==> !(#[trigger] view.args[j]).contains(0u8),
            decreases self.args@.len() - i,
        {
            assert(view.args[i as int] == self.args@[i as int]@);
            if holds_byte(&self.args[i], 0) {
                return Err(WasiStateCreationError::ArgumentContainsNulByte);
            }
            i = i + 1;
        }
        let mut envs: Vec<Vec<u8>> = Vec::new();
        let mut k: usize = 0;
        while k < self.envs.len()
            invariant
                k <= self.envs@.len(),
                view == self@,
                envs@.len() == k,
                forall|j: int| 0 <= j < view.args.len() ==> !(#[trigger] view.args[j]).contains(0u8),
                forall|j: int| 0 <= j < k ==> spec_env_ok(#[trigger] view.envs[j]),
                forall|j: int| 0 <= j < k ==> envs@[j]@ == spec_env_line(view.envs[j]),
            decreases self.envs@.len() - k,
        {
            let pair = &self.envs[k];
            assert(view.envs[k as int] == (pair.0@, pair.1@));
            if holds_byte(&pair.0, 0) || holds_byte(&pair.0, 61) || holds_byte(&pair.1, 0) {
                return Err(WasiStateCreationError::EnvironmentVariableFormatError);
            }
            let mut line = clone_bytes(&pair.0);
            line.push(61);
            extend_bytes(&mut line, pair.1.as_slice());
            envs.push(line);
            k = k + 1;
        }
        let state = WasiState { args: self.args, envs };
        assert(state@.envs =~= Seq::new(view.envs.len(), |i: int| spec_env_line(view.envs[i])));
        Ok(state)
    }
}

impl WasiState {
    /// The arguments, the name of the program first.
    pub fn args(&self) -> (args: &Vec<Vec<u8>>)
        ensures
            spec_buffer_views(args@) == self@.args,
    {
        &self.args
    }

    /// The environment variables, each as `KEY=VALUE`.
    pub fn envs(&self) -> (envs: &Vec<Vec<u8>>)
        ensures
            spec_buffer_views(envs@) == self@.envs,
    {
        &self.envs
    }

    /// The arguments as WASI hands them to the guest, and as a journal
    /// records them.
    pub fn args_bytes(&self) -> (bytes: Vec<u8>)
        ensures
            bytes@ == spec_terminated(self@.args, self@.args.len() as int),
    {
        terminated(&self.args)
    }

    /// The environment as WASI hands it to the guest, and as a journal
    /// records it.
    pub fn environ_bytes(&self) -> (bytes: Vec<u8>)
        ensures
            bytes@ == spec_terminated(self@.envs, self@.envs.len() as int),
    {
        terminated(&self.envs)
    }
}

} // verus!
