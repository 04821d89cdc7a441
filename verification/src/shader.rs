//! The life of a GPU shader program: compiling two stages, linking them, and
//! giving every GPU object back on each way out.
//!
//! The GPU context is not reachable from here. An attempt is a small state
//! machine instead: each step names the commands to run on the context, and
//! the next step takes what the context answered.

use vstd::prelude::*;
use vstd::string::StringExecFns;

verus! {

/// One of the two stages of a shader program.
#[derive(Clone, Copy, Debug, PartialEq, Eq, Structural)]
pub enum ShaderStage {
    Vertex,
    Fragment,
}

impl ShaderStage {
    /// The stage's name as it appears in messages.
    pub open spec fn spec_name(self) -> Seq<char> {
        match self {
            ShaderStage::Vertex => "vertex"@,
            ShaderStage::Fragment => "fragment"@,
        }
    }

    /// The stage's name as it appears in messages.
    pub fn name(&self) -> (name: &'static str)
        ensures
            name@ == self.spec_name(),
    {
        match self {
            ShaderStage::Vertex => "vertex",
            ShaderStage::Fragment => "fragment",
        }
    }
}

/// Why no program came out of an attempt.
#[derive(Clone, Debug, PartialEq, Eq)]
pub enum ShaderError {
    /// A stage did not compile; `log` is the compiler's diagnostic text.
    Compile { stage: ShaderStage, log: String },
    /// The stages did not link; `log` is the linker's diagnostic text.
    Link { log: String },
    /// The context gave no shader or program object; `message` is its reason.
    Create { message: String },
}

impl ShaderError {
    /// The message for the user: the failing stage by name, and the native
    /// diagnostic text.
    pub open spec fn spec_message(self) -> Seq<char> {
        match self {
            ShaderError::Compile { stage, log } => stage.spec_name()
                + " shader compilation failed: "@ + log@,
            ShaderError::Link { log } => "Shader program linking failed: "@ + log@,
            ShaderError::Create { message } => message@,
        }
    }

    /// Writes the message for the user.
    pub fn message(&self) -> (text: String)
        ensures
            text@ == self.spec_message(),
    {
        match self {
            ShaderError::Compile { stage, log } => {
                let mut text = String::from_str(stage.name());
                text.append(" shader compilation failed: ");
                text.append(log.as_str());
                text
            },
            ShaderError::Link { log } => {
                let mut text = String::from_str("Shader program linking failed: ");
                text.append(log.as_str());
                text
            },
            ShaderError::Create { message } => message.clone(),
        }
    }
}

/// A GPU object by its kind and the number the context knows it by.
#[derive(Clone, Copy, Debug, PartialEq, Eq, Structural)]
pub enum GpuObject {
    Shader(u32),
    Program(u32),
}

/// A command for the GPU context. The first four are answered with a
/// `GpuReply`; the others have no answer.
#[derive(Clone, Copy, Debug, PartialEq, Eq, Structural)]
pub enum GpuCommand {
    /// Create a shader object of the stage's type. Answer: `Created` or
    /// `CreateFailed`.
    CreateShader { stage: ShaderStage },
    /// Load the stage's source text into the shader object and compile it.
    /// Answer: `Status` with the compile status and, on failure, the info log.
    CompileShader { shader: u32, stage: ShaderStage },
    /// Create a program object. Answer: `Created` or `CreateFailed`.
    CreateProgram,
    /// Attach both shader objects to the program and link it. Answer:
    /// `Status` with the link status and, on failure, the info log.
    LinkProgram { program: u32, vertex: u32, fragment: u32 },
    /// Detach a shader object from the program.
    DetachShader { program: u32, shader: u32 },
    /// Delete a shader object.
    DeleteShader { shader: u32 },
    /// Delete a program object.
    DeleteProgram { program: u32 },
}

/// What the GPU context answered to a command.
#[derive(Clone, Debug, PartialEq, Eq)]
pub enum GpuReply {
    /// The object was created and goes by `handle`.
    Created { handle: u32 },
    /// No object was created.
    CreateFailed { message: String },
    /// Compiling or linking ended; `log` is the info log of a failure.
    Status { success: bool, log: String },
}

/// Where an attempt to build a shader program stands.
#[derive(Clone, Debug, PartialEq, Eq)]
pub enum CompileState {
    /// Nothing has been asked of the context yet.
    Start,
    /// Waiting for the vertex shader object.
    VertexCreating,
    /// Waiting for the vertex stage to compile.
    VertexCompiling { vertex: u32 },
    /// The vertex stage compiled; waiting for the fragment shader object.
    FragmentCreating { vertex: u32 },
    /// Waiting for the fragment stage to compile.
    FragmentCompiling { vertex: u32, fragment: u32 },
    /// Both stages compiled; waiting for the program object.
    ProgramCreating { vertex: u32, fragment: u32 },
    /// Waiting for the program to link.
    Linking { vertex: u32, fragment: u32, program: u32 },
    /// The program is linked and belongs to the caller.
    Ready { program: u32 },
    /// The attempt failed and holds nothing.
    Failed { error: ShaderError },
}

/// One step of an attempt: the state it leads to, and the commands to run on
/// the context, in order. Only the last command of a step can have an answer;
/// that answer is the input of the next step.
#[derive(Clone, Debug, PartialEq, Eq)]
pub struct CompileStep {
    pub state: CompileState,
    pub commands: Vec<GpuCommand>,
}

/// The step that begins an attempt: ask for the vertex shader object.
pub open spec fn first_step() -> (CompileState, Seq<GpuCommand>) {
    (CompileState::VertexCreating, seq![GpuCommand::CreateShader { stage: ShaderStage::Vertex }])
}

/// The step from `state` on the answer `reply`.
///
/// The stages are compiled vertex first, then linked. On every failure all
/// objects made so far are deleted. On success the two shader objects are
/// detached and deleted, and the program is left to the caller. An answer that
/// the state does not wait for changes nothing.
pub open spec fn next_step(state: CompileState, reply: GpuReply) -> (
    CompileState,
    Seq<GpuCommand>,
) {
    match (state, reply) {
        (CompileState::VertexCreating, GpuReply::Created { handle }) => (
            CompileState::VertexCompiling { vertex: handle },
            seq![GpuCommand::CompileShader { shader: handle, stage: ShaderStage::Vertex }],
        ),
        (CompileState::VertexCreating, GpuReply::CreateFailed { message }) => (
            CompileState::Failed { error: ShaderError::Create { message } },
            Seq::empty(),
        ),
        (CompileState::VertexCompiling { vertex }, GpuReply::Status { success, log }) => if success {
            (
                CompileState::FragmentCreating { vertex },
                seq![GpuCommand::CreateShader { stage: ShaderStage::Fragment }],
            )
        } else {
            (
                CompileState::Failed {
                    error: ShaderError::Compile { stage: ShaderStage::Vertex, log },
                },
                seq![GpuCommand::DeleteShader { shader: vertex }],
            )
        },
        (CompileState::FragmentCreating { vertex }, GpuReply::Created { handle }) => (
            CompileState::FragmentCompiling { vertex, fragment: handle },
            seq![GpuCommand::CompileShader { shader: handle, stage: ShaderStage::Fragment }],
        ),
        (CompileState::FragmentCreating { vertex }, GpuReply::CreateFailed { message }) => (
            CompileState::Failed { error: ShaderError::Create { message } },
            seq![GpuCommand::DeleteShader { shader: vertex }],
        ),
        (
            CompileState::FragmentCompiling { vertex, fragment },
            GpuReply::Status { success, log },
        ) => if success {
            (CompileState::ProgramCreating { vertex, fragment }, seq![GpuCommand::CreateProgram])
        } else {
            (
                CompileState::Failed {
                    error: ShaderError::Compile { stage: ShaderStage::Fragment, log },
                },
                seq![
                    GpuCommand::DeleteShader { shader: fragment },
                    GpuCommand::DeleteShader { shader: vertex },
                ],
            )
        },
        (CompileState::ProgramCreating { vertex, fragment }, GpuReply::Created { handle }) => (
            CompileState::Linking { vertex, fragment, program: handle },
            seq![GpuCommand::LinkProgram { program: handle, vertex, fragment }],
        ),
        (
            CompileState::ProgramCreating { vertex, fragment },
            GpuReply::CreateFailed { message },
        ) => (
            CompileState::Failed { error: ShaderError::Create { message } },
            seq![
                GpuCommand::DeleteShader { shader: vertex },
                GpuCommand::DeleteShader { shader: fragment },
            ],
        ),
        (
            CompileState::Linking { vertex, fragment, program },
            GpuReply::Status { success, log },
        ) => if success {
            (
                CompileState::Ready { program },
                seq![
                    GpuCommand::DetachShader { program, shader: vertex },
                    GpuCommand::DetachShader { program, shader: fragment },
                    GpuCommand::DeleteShader { shader: vertex },
                    GpuCommand::DeleteShader { shader: fragment },
                ],
            )
        } else {
            (
                CompileState::Failed { error: ShaderError::Link { log } },
                seq![
                    GpuCommand::DeleteProgram { program },
                    GpuCommand::DeleteShader { shader: vertex },
                    GpuCommand::DeleteShader { shader: fragment },
                ],
            )
        },
        (state, _) => (state, Seq::empty()),
    }
}

impl CompileState {
    /// Begins an attempt.
    pub fn start() -> (step: CompileStep)
        ensures
            (step.state, step.commands@) == first_step(),
    {
        let mut commands: Vec<GpuCommand> = Vec::new();
        commands.push(GpuCommand::CreateShader { stage: ShaderStage::Vertex });
        assert(commands@ =~= first_step().1);
        CompileStep { state: CompileState::VertexCreating, commands }
    }

    /// Takes the context's answer to the last command and says how the
    /// attempt goes on.
    pub fn advance(self, reply: GpuReply) -> (step: CompileStep)
        ensures
            (step.state, step.commands@) == next_step(self, reply),
    {
        let mut commands: Vec<GpuCommand> = Vec::new();
        let state = match (self, reply) {
            (CompileState::VertexCreating, GpuReply::Created { handle }) => {
                commands.push(
                    GpuCommand::CompileShader { shader: handle, stage: ShaderStage::Vertex },
                );
                CompileState::VertexCompiling { vertex: handle }
            },
            (CompileState::VertexCreating, GpuReply::CreateFailed { message }) => {
                CompileState::Failed { error: ShaderError::Create { message } }
            },
            (CompileState::VertexCompiling { vertex }, GpuReply::Status { success, log }) => {
                if success {
                    commands.push(GpuCommand::CreateShader { stage: ShaderStage::Fragment });
                    CompileState::FragmentCreating { vertex }
                } else {
                    commands.push(GpuCommand::DeleteShader { shader: vertex });
                    CompileState::Failed {
                        error: ShaderError::Compile { stage: ShaderStage::Vertex, log },
                    }
                }
            },
            (CompileState::FragmentCreating { vertex }, GpuReply::Created { handle }) => {
                commands.push(
                    GpuCommand::CompileShader { shader: handle, stage: ShaderStage::Fragment },
                );
                CompileState::FragmentCompiling { vertex, fragment: handle }
            },
            (CompileState::FragmentCreating { vertex }, GpuReply::CreateFailed { message }) => {
                commands.push(GpuCommand::DeleteShader { shader: vertex });
                CompileState::Failed { error: ShaderError::Create { message } }
            },
            (
                CompileState::FragmentCompiling { vertex, fragment },
                GpuReply::Status { success, log },
            ) => {
                if success {
                    commands.push(GpuCommand::CreateProgram);
                    CompileState::ProgramCreating { vertex, fragment }
                } else {
                    commands.push(GpuCommand::DeleteShader { shader: fragment });
                    commands.push(GpuCommand::DeleteShader { shader: vertex });
                    CompileState::Failed {
                        error: ShaderError::Compile { stage: ShaderStage::Fragment, log },
                    }
                }
            },
            (CompileState::ProgramCreating { vertex, fragment }, GpuReply::Created { handle }) => {
                commands.push(GpuCommand::LinkProgram { program: handle, vertex, fragment });
                CompileState::Linking { vertex, fragment, program: handle }
            },
            (
                CompileState::ProgramCreating { vertex, fragment },
                GpuReply::CreateFailed { message },
            ) => {
                commands.push(GpuCommand::DeleteShader { shader: vertex });
                commands.push(GpuCommand::DeleteShader { shader: fragment });
                CompileState::Failed { error: ShaderError::Create { message } }
            },
            (
                CompileState::Linking { vertex, fragment, program },
                GpuReply::Status { success, log },
            ) => {
                if success {
                    commands.push(GpuCommand::DetachShader { program, shader: vertex });
                    commands.push(GpuCommand::DetachShader { program, shader: fragment });
                    commands.push(GpuCommand::DeleteShader { shader: vertex });
                    commands.push(GpuCommand::DeleteShader { shader: fragment });
                    CompileState::Ready { program }
                } else {
                    commands.push(GpuCommand::DeleteProgram { program });
                    commands.push(GpuCommand::DeleteShader { shader: vertex });
                    commands.push(GpuCommand::DeleteShader { shader: fragment });
                    CompileState::Failed { error: ShaderError::Link { log } }
                }
            },
            (state, _) => state,
        };
        assert(commands@ =~= next_step(self, reply).1);
        CompileStep { state, commands }
    }
}

/// A compiled shader program. It owns the GPU program object `id`; the owner
/// releases it once, by running the command that `delete` gives.
#[derive(Debug, PartialEq, Eq)]
pub struct ShaderProgram {
    pub id: u32,
}

impl ShaderProgram {
    /// Ends an attempt: the program where the attempt is ready, the error
    /// where it failed, and `None` while it is still under way.
    pub fn new(state: CompileState) -> (outcome: Option<Result<ShaderProgram, ShaderError>>)
        ensures
            outcome == match state {
                CompileState::Ready { program } => Some(
                    Ok::<ShaderProgram, ShaderError>(ShaderProgram { id: program }),
                ),
                CompileState::Failed { error } => Some(Err::<ShaderProgram, ShaderError>(error)),
                _ => None,
            },
    {
        match state {
            CompileState::Ready { program } => Some(Ok(ShaderProgram { id: program })),
            CompileState::Failed { error } => Some(Err(error)),
            _ => None,
        }
    }

    /// Gives the program up: the command that releases its GPU object.
    pub fn delete(self) -> (command: GpuCommand)
        ensures
            command == (GpuCommand::DeleteProgram { program: self.id }),
    {
        GpuCommand::DeleteProgram { program: self.id }
    }
}

/// The GPU objects that an attempt holds in a state.
pub open spec fn held(state: CompileState) -> Set<GpuObject> {
    match state {
        CompileState::Start => Set::empty(),
        CompileState::VertexCreating => Set::empty(),
        CompileState::VertexCompiling { vertex } => set![GpuObject::Shader(vertex)],
        CompileState::FragmentCreating { vertex } => set![GpuObject::Shader(vertex)],
        CompileState::FragmentCompiling { vertex, fragment } => set![
            GpuObject::Shader(vertex),
            GpuObject::Shader(fragment),
        ],
        CompileState::ProgramCreating { vertex, fragment } => set![
            GpuObject::Shader(vertex),
            GpuObject::Shader(fragment),
        ],
        CompileState::Linking { vertex, fragment, program } => set![
            GpuObject::Shader(vertex),
            GpuObject::Shader(fragment),
            GpuObject::Program(program),
        ],
        CompileState::Ready { program } => set![GpuObject::Program(program)],
        CompileState::Failed { error } => Set::empty(),
    }
}

/// The GPU object that the context made when it gave `reply` in `state`.
pub open spec fn acquired(state: CompileState, reply: GpuReply) -> Set<GpuObject> {
    match (state, reply) {
        (CompileState::VertexCreating, GpuReply::Created { handle }) => set![
            GpuObject::Shader(handle),
        ],
        (CompileState::FragmentCreating { vertex }, GpuReply::Created { handle }) => set![
            GpuObject::Shader(handle),
        ],
        (CompileState::ProgramCreating { vertex, fragment }, GpuReply::Created { handle }) => set![
            GpuObject::Program(handle),
        ],
        _ => Set::empty(),
    }
}

/// Whether running the command deletes the object.
pub open spec fn deletes(command: GpuCommand, object: GpuObject) -> bool {
    match command {
        GpuCommand::DeleteShader { shader } => object == GpuObject::Shader(shader),
        GpuCommand::DeleteProgram { program } => object == GpuObject::Program(program),
        _ => false,
    }
}

/// The objects that running the commands deletes.
pub open spec fn deleted_by(commands: Seq<GpuCommand>) -> Set<GpuObject> {
    Set::new(
        |object: GpuObject|
            exists|i: int| 0 <= i < commands.len() && deletes(#[trigger] commands[i], object),
    )
}

/// The objects that running one command deletes.
pub open spec fn deleted_by_one(command: GpuCommand) -> Set<GpuObject> {
    Set::new(|object: GpuObject| deletes(command, object))
}

proof fn lemma_deleted_by_none()
    ensures
        deleted_by(Seq::<GpuCommand>::empty()) == Set::<GpuObject>::empty(),
{
    assert(deleted_by(Seq::<GpuCommand>::empty()) =~= Set::<GpuObject>::empty());
}

proof fn lemma_deleted_by_push(commands: Seq<GpuCommand>, last: GpuCommand)
    ensures
        deleted_by(commands.push(last)) == deleted_by(commands) + deleted_by_one(last),
{
    let longer = commands.push(last);
    assert forall|object: GpuObject|
        deleted_by(longer).contains(object) <==> (deleted_by(commands) + deleted_by_one(
            last,
        )).contains(object) by {
        if deleted_by(longer).contains(object) {
            let i = choose|i: int| 0 <= i < longer.len() && deletes(#[trigger] longer[i], object);
            if i < commands.len() {
                assert(deletes(commands[i], object));
            }
        }
        if deleted_by(commands).contains(object) {
            let i = choose|i: int|
                0 <= i < commands.len() && deletes(#[trigger] commands[i], object);
            assert(deletes(longer[i], object));
        }
        if deleted_by_one(last).contains(object) {
            assert(deletes(longer[commands.len() as int], object));
        }
    }
    assert(deleted_by(longer) =~= deleted_by(commands) + deleted_by_one(last));
}

/// What up to four commands delete, command by command.
proof fn lemma_deleted_by_few(commands: Seq<GpuCommand>)
    requires
        commands.len() <= 4,
    ensures
        forall|object: GpuObject|
            deleted_by(commands).contains(object) <==> (commands.len() > 0 && deletes(
                commands[0],
                object,
            )) || (commands.len() > 1 && deletes(commands[1], object)) || (commands.len() > 2
                && deletes(commands[2], object)) || (commands.len() > 3 && deletes(
                commands[3],
                object,
            )),
{
    let none = Seq::<GpuCommand>::empty();
    lemma_deleted_by_none();
    if commands.len() == 0 {
        assert(commands =~= none);
    } else if commands.len() == 1 {
        lemma_deleted_by_push(none, commands[0]);
        assert(commands =~= none.push(commands[0]));
    } else if commands.len() == 2 {
        lemma_deleted_by_push(none, commands[0]);
        lemma_deleted_by_push(none.push(commands[0]), commands[1]);
        assert(commands =~= none.push(commands[0]).push(commands[1]));
    } else if commands.len() == 3 {
        lemma_deleted_by_push(none, commands[0]);
        lemma_deleted_by_push(none.push(commands[0]), commands[1]);
        lemma_deleted_by_push(none.push(commands[0]).push(commands[1]), commands[2]);
        assert(commands =~= none.push(commands[0]).push(commands[1]).push(commands[2]));
    } else {
        lemma_deleted_by_push(none, commands[0]);
        lemma_deleted_by_push(none.push(commands[0]), commands[1]);
        lemma_deleted_by_push(none.push(commands[0]).push(commands[1]), commands[2]);
        lemma_deleted_by_push(
            none.push(commands[0]).push(commands[1]).push(commands[2]),
            commands[3],
        );
        assert(commands =~= none.push(commands[0]).push(commands[1]).push(commands[2]).push(
            commands[3],
        ));
    }
}

/// Every step accounts for every object: what the attempt holds afterwards
/// is what it held before and what the answer brought, less what the step's
/// commands delete, and the commands delete nothing else.
pub proof fn lemma_step_conserves(state: CompileState, reply: GpuReply)
    ensures
        held(next_step(state, reply).0) == (held(state) + acquired(state, reply)).difference(
            deleted_by(next_step(state, reply).1),
        ),
        deleted_by(next_step(state, reply).1).subset_of(held(state) + acquired(state, reply)),
{
    let commands = next_step(state, reply).1;
    lemma_deleted_by_few(commands);
    assert(held(next_step(state, reply).0) =~= (held(state) + acquired(state, reply)).difference(
        deleted_by(commands),
    ));
}

/// An attempt that has ended in failure holds no GPU object, and one that is
/// ready holds its program and nothing else.
pub proof fn lemma_ended_attempt_holds(state: CompileState)
    ensures
        state is Failed ==> held(state) == Set::<GpuObject>::empty(),
        state matches CompileState::Ready { program } ==> held(state) == set![
            GpuObject::Program(program),
        ],
{
}

/// The state of an attempt after the context's answers so far.
pub open spec fn state_after(replies: Seq<GpuReply>) -> CompileState
    decreases replies.len(),
{
    if replies.len() == 0 {
        first_step().0
    } else {
        next_step(state_after(replies.drop_last()), replies.last()).0
    }
}

/// The objects alive in the context after an attempt has come as far as the
/// answers say: each answer may bring an object, and each step's commands
/// delete theirs.
pub open spec fn alive_after(before: Set<GpuObject>, replies: Seq<GpuReply>) -> Set<GpuObject>
    decreases replies.len(),
{
    if replies.len() == 0 {
        before.difference(deleted_by(first_step().1))
    } else {
        let state = state_after(replies.drop_last());
        (alive_after(before, replies.drop_last()) + acquired(state, replies.last())).difference(
            deleted_by(next_step(state, replies.last()).1),
        )
    }
}

/// Whether the context never answers with an object that was alive before
/// the attempt began.
pub open spec fn answers_are_new(before: Set<GpuObject>, replies: Seq<GpuReply>) -> bool {
    forall|k: int|
        0 <= k < replies.len() ==> before.disjoint(
            #[trigger] acquired(state_after(replies.take(k)), replies[k]),
        )
}

/// No object leaks and none is lost: whatever the context answers, the
/// objects alive after the attempt's commands are those alive before it and
/// those the attempt holds. So a failed attempt leaves the context as it
/// found it, and a ready one adds the program and nothing else.
pub proof fn lemma_attempt_leaks_nothing(before: Set<GpuObject>, replies: Seq<GpuReply>)
    requires
        answers_are_new(before, replies),
    ensures
        alive_after(before, replies) == before + held(state_after(replies)),
        before.disjoint(held(state_after(replies))),
        state_after(replies) is Failed ==> alive_after(before, replies) == before,
        state_after(replies) matches CompileState::Ready { program } ==> alive_after(
            before,
            replies,
        ) == before.insert(GpuObject::Program(program)),
    decreases replies.len(),
{
    if replies.len() == 0 {
        assert(deleted_by(first_step().1) =~= Set::<GpuObject>::empty()) by {
            assert(first_step().1.len() == 1);
        }
        assert(alive_after(before, replies) =~= before + held(state_after(replies)));
    } else {
        let earlier = replies.drop_last();
        let reply = replies.last();
        let state = state_after(earlier);
        assert forall|k: int| 0 <= k < earlier.len() implies before.disjoint(
            #[trigger] acquired(state_after(earlier.take(k)), earlier[k]),
        ) by {
            assert(earlier.take(k) =~= replies.take(k));
            assert(earlier[k] == replies[k]);
        }
        lemma_attempt_leaks_nothing(before, earlier);
        lemma_step_conserves(state, reply);
        assert(replies.take(replies.len() - 1) =~= earlier);
        assert(before.disjoint(acquired(state, reply)));
        assert(alive_after(before, replies) =~= before + held(state_after(replies)));
    }
    assert(state_after(replies) is Failed ==> alive_after(before, replies) =~= before);
    assert(state_after(replies) matches CompileState::Ready { program } ==> alive_after(
        before,
        replies,
    ) =~= before.insert(GpuObject::Program(program)));
}

/// One more answer takes the attempt one step further.
pub proof fn lemma_state_after_push(replies: Seq<GpuReply>, reply: GpuReply)
    ensures
        state_after(replies.push(reply)) == next_step(state_after(replies), reply).0,
{
    assert(replies.push(reply).drop_last() =~= replies);
}

/// Answers stay new when one more new answer follows them.
pub proof fn lemma_answers_are_new_push(
    before: Set<GpuObject>,
    replies: Seq<GpuReply>,
    reply: GpuReply,
)
    requires
        answers_are_new(before, replies),
        before.disjoint(acquired(state_after(replies), reply)),
    ensures
        answers_are_new(before, replies.push(reply)),
{
    let longer = replies.push(reply);
    assert forall|k: int| 0 <= k < longer.len() implies before.disjoint(
        #[trigger] acquired(state_after(longer.take(k)), longer[k]),
    ) by {
        if k < replies.len() {
            assert(longer.take(k) =~= replies.take(k));
            assert(before.disjoint(acquired(state_after(replies.take(k)), replies[k])));
        } else {
            assert(longer.take(k) =~= replies);
        }
    }
}

/// A vertex stage that does not compile ends the attempt with the vertex
/// stage's compile error, and the context holds what it held before.
pub proof fn lemma_vertex_failure_leaves_nothing(
    before: Set<GpuObject>,
    vertex: u32,
    log: String,
)
    requires
        !before.contains(GpuObject::Shader(vertex)),
    ensures
        ({
            let replies = seq![
                GpuReply::Created { handle: vertex },
                GpuReply::Status { success: false, log },
            ];
            &&& state_after(replies) == CompileState::Failed {
                error: ShaderError::Compile { stage: ShaderStage::Vertex, log },
            }
            &&& alive_after(before, replies) == before
        }),
{
    let none = Seq::<GpuReply>::empty();
    let created = GpuReply::Created { handle: vertex };
    let failed = GpuReply::Status { success: false, log };
    let replies = seq![created, failed];
    assert(none.push(created).push(failed) =~= replies);
    lemma_state_after_push(none, created);
    lemma_state_after_push(none.push(created), failed);
    lemma_answers_are_new_push(before, none, created);
    lemma_answers_are_new_push(before, none.push(created), failed);
    lemma_attempt_leaks_nothing(before, replies);
}

/// The answers up to the making of the program, where both stages compile.
pub open spec fn answers_up_to_linking(
    vertex: u32,
    fragment: u32,
    program: u32,
    vertex_log: String,
    fragment_log: String,
) -> Seq<GpuReply> {
    seq![
        GpuReply::Created { handle: vertex },
        GpuReply::Status { success: true, log: vertex_log },
        GpuReply::Created { handle: fragment },
        GpuReply::Status { success: true, log: fragment_log },
        GpuReply::Created { handle: program },
    ]
}

/// Where both stages compile and the program is made, the attempt waits for
/// the link with all three objects in hand.
pub proof fn lemma_compiled_stages_reach_linking(
    before: Set<GpuObject>,
    vertex: u32,
    fragment: u32,
    program: u32,
    vertex_log: String,
    fragment_log: String,
)
    requires
        !before.contains(GpuObject::Shader(vertex)),
        !before.contains(GpuObject::Shader(fragment)),
        !before.contains(GpuObject::Program(program)),
    ensures
        ({
            let replies = answers_up_to_linking(
                vertex,
                fragment,
                program,
                vertex_log,
                fragment_log,
            );
            &&& state_after(replies) == CompileState::Linking { vertex, fragment, program }
            &&& answers_are_new(before, replies)
        }),
{
    let r0 = Seq::<GpuReply>::empty();
    let r1 = r0.push(GpuReply::Created { handle: vertex });
    let r2 = r1.push(GpuReply::Status { success: true, log: vertex_log });
    let r3 = r2.push(GpuReply::Created { handle: fragment });
    let r4 = r3.push(GpuReply::Status { success: true, log: fragment_log });
    let r5 = r4.push(GpuReply::Created { handle: program });
    assert(r5 =~= answers_up_to_linking(vertex, fragment, program, vertex_log, fragment_log));
    lemma_state_after_push(r0, r1.last());
    lemma_answers_are_new_push(before, r0, r1.last());
    lemma_state_after_push(r1, r2.last());
    lemma_answers_are_new_push(before, r1, r2.last());
    lemma_state_after_push(r2, r3.last());
    lemma_answers_are_new_push(before, r2, r3.last());
    lemma_state_after_push(r3, r4.last());
    lemma_answers_are_new_push(before, r3, r4.last());
    lemma_state_after_push(r4, r5.last());
    lemma_answers_are_new_push(before, r4, r5.last());
}

/// Stages that compile but do not link end the attempt with the link error,
/// and the context holds what it held before.
pub proof fn lemma_link_failure_leaves_nothing(
    before: Set<GpuObject>,
    vertex: u32,
    fragment: u32,
    program: u32,
    vertex_log: String,
    fragment_log: String,
    log: String,
)
    requires
        !before.contains(GpuObject::Shader(vertex)),
        !before.contains(GpuObject::Shader(fragment)),
        !before.contains(GpuObject::Program(program)),
    ensures
        ({
            let replies = answers_up_to_linking(
                vertex,
                fragment,
                program,
                vertex_log,
                fragment_log,
            ).push(GpuReply::Status { success: false, log });
            &&& state_after(replies) == CompileState::Failed { error: ShaderError::Link { log } }
            &&& alive_after(before, replies) == before
        }),
{
    let earlier = answers_up_to_linking(vertex, fragment, program, vertex_log, fragment_log);
    let last = GpuReply::Status { success: false, log };
    lemma_compiled_stages_reach_linking(
        before,
        vertex,
        fragment,
        program,
        vertex_log,
        fragment_log,
    );
    lemma_state_after_push(earlier, last);
    lemma_answers_are_new_push(before, earlier, last);
    lemma_attempt_leaks_nothing(before, earlier.push(last));
}

/// Stages that compile and link leave the attempt ready, and the context
/// holds what it held before and the new program, nothing else.
pub proof fn lemma_success_leaves_the_program(
    before: Set<GpuObject>,
    vertex: u32,
    fragment: u32,
    program: u32,
    vertex_log: String,
    fragment_log: String,
    log: String,
)
    requires
        !before.contains(GpuObject::Shader(vertex)),
        !before.contains(GpuObject::Shader(fragment)),
        !before.contains(GpuObject::Program(program)),
    ensures
        ({
            let replies = answers_up_to_linking(
                vertex,
                fragment,
                program,
                vertex_log,
                fragment_log,
            ).push(GpuReply::Status { success: true, log });
            &&& state_after(replies) == CompileState::Ready { program }
            &&& alive_after(before, replies) == before.insert(GpuObject::Program(program))
        }),
{
    let earlier = answers_up_to_linking(vertex, fragment, program, vertex_log, fragment_log);
    let last = GpuReply::Status { success: true, log };
    lemma_compiled_stages_reach_linking(
        before,
        vertex,
        fragment,
        program,
        vertex_log,
        fragment_log,
    );
    lemma_state_after_push(earlier, last);
    lemma_answers_are_new_push(before, earlier, last);
    lemma_attempt_leaks_nothing(before, earlier.push(last));
}

/// Releasing a program deletes that program and no other object, however
/// often the command is run.
pub proof fn lemma_release_deletes_its_program_only(id: u32, object: GpuObject)
    ensures
        deletes(GpuCommand::DeleteProgram { program: id }, object) <==> object
            == GpuObject::Program(id),
{
}

} // verus!
