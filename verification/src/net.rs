//! The streams between the two sides of a session, and how the sides agree on their roles.
use vstd::prelude::*;

verus! {

pub const CONTROL_STREAM_ID: u8 = 1;

pub const INPUT_STREAM_ID: u8 = 2;

pub const VIDEO_STREAM_ID: u8 = 3;

pub const AUDIO_STREAM_ID: u8 = 4;

/// What a side of a session does.
#[derive(Debug, Clone, Copy, PartialEq, Eq, Structural)]
pub enum Role {
    /// It shows its screen and obeys the other side's input.
    Streamer,
    /// It shows the other side's screen and sends input.
    Watcher,
}

/// Why a role could not be read.
#[derive(Debug, Clone, Copy, PartialEq, Eq, Structural)]
pub enum RoleError {
    /// The message is not a single byte.
    ExpectedRoleByte,
    /// The byte stands for no role.
    UnknownRole(u8),
}

/// Why a stream was not accepted.
#[derive(Debug, Clone, Copy, PartialEq, Eq, Structural)]
pub enum StreamError {
    /// The reliable stream is not the control stream.
    NotControl,
    /// The unreliable stream is none of those that are expected.
    Unexpected,
}

impl Role {
    /// The byte that stands for the role.
    pub open spec fn byte(self) -> u8 {
        match self {
            Role::Streamer => 0,
            Role::Watcher => 1,
        }
    }

    /// The role of the other side.
    pub open spec fn other(self) -> Role {
        match self {
            Role::Streamer => Role::Watcher,
            Role::Watcher => Role::Streamer,
        }
    }

    /// The role of the other side.
    pub fn opposite(self) -> (role: Role)
        ensures
            role == self.other(),
            role is Watcher <==> self is Streamer,
    {
        match self {
            Role::Streamer => Role::Watcher,
            Role::Watcher => Role::Streamer,
        }
    }
}

/// What a message says about the other side's role.
pub open spec fn role_in(message: Seq<u8>) -> Result<Role, RoleError> {
    if message.len() != 1 {
        Err(RoleError::ExpectedRoleByte)
    } else if message[0] == 0 {
        Ok(Role::Streamer)
    } else if message[0] == 1 {
        Ok(Role::Watcher)
    } else {
        Err(RoleError::UnknownRole(message[0]))
    }
}

/// The streams of a session: a reliable one of type `C`, and unreliable ones of type `S`.
pub struct Streams<C, S> {
    pub control: C,
    pub input: S,
    pub video: S,
    pub audio: S,
}

impl<C, S> Streams<C, S> {
    /// The message that tells the other side this side's role.
    pub fn send_role(role: Role) -> (message: [u8; 1])
        ensures
            message@ == seq![role.byte()],
            role is Streamer ==> message@ == seq![0u8],
            role is Watcher ==> message@ == seq![1u8],
    {
        let byte: u8 = match role {
            Role::Streamer => 0,
            Role::Watcher => 1,
        };
        let message = [byte];
        assert(message@ =~= seq![role.byte()]);
        message
    }

    /// The role that a message from the other side gives.
    pub fn recv_role(message: &[u8]) -> (r: Result<Role, RoleError>)
        ensures
            r == role_in(message@),
            message@ == seq![0u8] ==> r == Ok::<Role, RoleError>(Role::Streamer),
            message@ == seq![1u8] ==> r == Ok::<Role, RoleError>(Role::Watcher),
            message@.len() == 1 && message@[0] > 1 ==> r == Err::<Role, RoleError>(
                RoleError::UnknownRole(message@[0]),
            ),
            message@.len() != 1 ==> r == Err::<Role, RoleError>(RoleError::ExpectedRoleByte),
    {
        if message.len() != 1 {
            return Err(RoleError::ExpectedRoleByte);
        }
        match message[0] {
            0 => Ok(Role::Streamer),
            1 => Ok(Role::Watcher),
            byte => Err(RoleError::UnknownRole(byte)),
        }
    }
}

/// Accepts the first reliable stream, which has to be the control stream.
pub fn accept_control<C>(stream_id: u8, stream: C) -> (r: Result<C, StreamError>)
    ensures
        r == if stream_id == CONTROL_STREAM_ID {
            Ok::<C, StreamError>(stream)
        } else {
            Err(StreamError::NotControl)
        },
        r is Ok <==> stream_id == 1,
{
    if stream_id != CONTROL_STREAM_ID {
        Err(StreamError::NotControl)
    } else {
        Ok(stream)
    }
}

/// The unreliable streams that have been accepted so far.
pub struct AcceptedStreams<S> {
    pub input: Option<S>,
    pub video: Option<S>,
    pub audio: Option<S>,
}

impl<S> AcceptedStreams<S> {
    /// No stream has been accepted.
    pub fn new() -> (accepted: Self)
        ensures
            accepted == (AcceptedStreams::<S> { input: None, video: None, audio: None }),
    {
        AcceptedStreams { input: None, video: None, audio: None }
    }

    /// The streams after one more has been accepted. A stream replaces an earlier one with the
    /// same id.
    pub open spec fn with(self, stream_id: u8, stream: S) -> Self {
        if stream_id == INPUT_STREAM_ID {
            AcceptedStreams { input: Some(stream), ..self }
        } else if stream_id == VIDEO_STREAM_ID {
            AcceptedStreams { video: Some(stream), ..self }
        } else if stream_id == AUDIO_STREAM_ID {
            AcceptedStreams { audio: Some(stream), ..self }
        } else {
            self
        }
    }

    /// Whether every stream has been accepted.
    pub open spec fn complete(self) -> bool {
        self.input is Some && self.video is Some && self.audio is Some
    }

    /// Accepts an unreliable stream.
    pub fn accept(&mut self, stream_id: u8, stream: S) -> (r: Result<(), StreamError>)
        ensures
            *final(self) == old(self).with(stream_id, stream),
            final(self).input == if stream_id == 2 {
                Some(stream)
            } else {
                old(self).input
            },
            final(self).video == if stream_id == 3 {
                Some(stream)
            } else {
                old(self).video
            },
            final(self).audio == if stream_id == 4 {
                Some(stream)
            } else {
                old(self).audio
            },
            r is Ok <==> 2 <= stream_id <= 4,
            r == if INPUT_STREAM_ID <= stream_id <= AUDIO_STREAM_ID {
                Ok::<(), StreamError>(())
            } else {
                Err(StreamError::Unexpected)
            },
    {
        if stream_id == INPUT_STREAM_ID {
            self.input = Some(stream);
            Ok(())
        } else if stream_id == VIDEO_STREAM_ID {
            self.video = Some(stream);
            Ok(())
        } else if stream_id == AUDIO_STREAM_ID {
            self.audio = Some(stream);
            Ok(())
        } else {
            Err(StreamError::Unexpected)
        }
    }

    /// Whether every stream has been accepted.
    pub fn is_complete(&self) -> (r: bool)
        ensures
            r == self.complete(),
            r <==> self.input is Some && self.video is Some && self.audio is Some,
    {
        self.input.is_some() && self.video.is_some() && self.audio.is_some()
    }

    /// All streams of the session.
    pub fn finish<C>(self, control: C) -> (streams: Streams<C, S>)
        requires
            self.complete(),
        ensures
            streams.control == control,
            Some(streams.input) == self.input,
            Some(streams.video) == self.video,
            Some(streams.audio) == self.audio,
    {
        Streams {
            control,
            input: self.input.unwrap(),
            video: self.video.unwrap(),
            audio: self.audio.unwrap(),
        }
    }
}

/// The other side learns the role that was sent.
pub proof fn law_role_round_trip(role: Role)
    ensures
        role_in(seq![role.byte()]) == Ok::<Role, RoleError>(role),
{
}

/// A stream takes the place of its id, and leaves the others alone: 2 is the input, 3 the video, and
/// 4 the audio.
pub proof fn law_streams_have_their_places<S>(
    accepted: AcceptedStreams<S>,
    stream_id: u8,
    stream: S,
)
    ensures
        ({
            let after = accepted.with(stream_id, stream);
            &&& after.input == if stream_id == 2 { Some(stream) } else { accepted.input }
            &&& after.video == if stream_id == 3 { Some(stream) } else { accepted.video }
            &&& after.audio == if stream_id == 4 { Some(stream) } else { accepted.audio }
        }),
{
}

/// The two sides of a session have different roles, and each is the other side of the other.
pub proof fn law_roles_differ(role: Role)
    ensures
        role.other() != role,
        role.other().other() == role,
{
}

/// The accepted streams after a sequence of streams, each with its id.
pub open spec fn after_streams<S>(accepted: AcceptedStreams<S>, streams: Seq<(u8, S)>) -> AcceptedStreams<S>
    decreases streams.len(),
{
    if streams.len() == 0 {
        accepted
    } else {
        after_streams(accepted, streams.drop_last()).with(streams.last().0, streams.last().1)
    }
}

/// The three streams can be accepted in any order: if no id comes twice, every stream ends up in
/// its place.
pub proof fn law_streams_in_any_order<S>(streams: Seq<(u8, S)>)
    requires
        streams.len() == 3,
        forall|i: int|
            0 <= i < 3 ==> INPUT_STREAM_ID <= (#[trigger] streams[i]).0 <= AUDIO_STREAM_ID,
        forall|i: int, j: int|
            0 <= i < j < 3 ==> (#[trigger] streams[i]).0 != (#[trigger] streams[j]).0,
    ensures
        ({
            let accepted = after_streams(
                (AcceptedStreams::<S> { input: None, video: None, audio: None }),
                streams,
            );
            &&& accepted.complete()
            &&& forall|i: int|
                0 <= i < 3 ==> {
                    let (stream_id, stream) = #[trigger] streams[i];
                    &&& stream_id == INPUT_STREAM_ID ==> accepted.input == Some(stream)
                    &&& stream_id == VIDEO_STREAM_ID ==> accepted.video == Some(stream)
                    &&& stream_id == AUDIO_STREAM_ID ==> accepted.audio == Some(stream)
                }
        }),
{
    let none = AcceptedStreams::<S> { input: None, video: None, audio: None };
    let two = streams.drop_last();
    let one = two.drop_last();
    assert(one.drop_last().len() == 0);
    assert(streams.last() == streams[2] && two.last() == streams[1] && one.last() == streams[0]);
    assert(after_streams(none, one.drop_last()) == none);
    assert(after_streams(none, one) == none.with(streams[0].0, streams[0].1));
    assert(after_streams(none, two) == none.with(streams[0].0, streams[0].1).with(
        streams[1].0,
        streams[1].1,
    ));
}

} // verus!
