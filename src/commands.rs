use crate::dag::{is_prefix_of, starts_with};
use crate::run_state::str_eq;
use vstd::prelude::*;

verus! {

/// Shell commands of the stages of one run.
#[derive(Debug, Clone)]
pub struct CompiledCommands {
    pub lyrics: String,
    pub music: String,
    pub vocals: String,
    pub video: String,
    pub render: String,
}

/// Why a pipeline source was rejected.
#[derive(Debug, Clone, PartialEq, Eq)]
pub enum DslError {
    /// The source does not mention `css`.
    MissingPrefix,
    /// The source lacks the call of this stage, e.g. `music()`.
    MissingToken(String),
}

/// `p` occurs in `s` at some position.
pub open spec fn contains_sub(s: Seq<char>, p: Seq<char>) -> bool {
    exists|i: int| 0 <= i && i + p.len() <= s.len() && #[trigger] s.subrange(i, i + p.len()) == p
}

/// The lowercase form of a string, as `str::to_lowercase` gives it.
pub uninterp spec fn lower_of(s: Seq<char>) -> Seq<char>;

/// Relies on `str::to_lowercase`: its result depends on the characters alone.
#[verifier::external_body]
fn lowercase(s: &str) -> (r: String)
    ensures
        r@ == lower_of(s@),
{
    s.to_lowercase()
}

/// Whether `p` occurs in `s`.
pub fn contains_str(s: &str, p: &str) -> (r: bool)
    ensures
        r == contains_sub(s@, p@),
{
    let n = s.unicode_len();
    let m = p.unicode_len();
    if m > n {
        proof {
            assert forall|i: int| 0 <= i && i + p@.len() <= s@.len() implies #[trigger] s@.subrange(
                i,
                i + p@.len(),
            ) != p@ by {}
        }
        return false;
    }
    let mut i: usize = 0;
    while i <= n - m
        invariant
            n == s@.len(),
            m == p@.len(),
            m <= n,
            i <= n - m + 1,
            forall|j: int| 0 <= j < i ==> #[trigger] s@.subrange(j, j + m) != p@,
        decreases n - m + 1 - i,
    {
        let mut k: usize = 0;
        let mut same = true;
        while k < m
            invariant
                n == s@.len(),
                m == p@.len(),
                i + m <= n,
                k <= m,
                same == forall|x: int| 0 <= x < k ==> s@[i + x] == p@[x],
            decreases m - k,
        {
            if s.get_char(i + k) != p.get_char(k) {
                same = false;
            }
            k = k + 1;
        }
        if same {
            assert(s@.subrange(i as int, i + m) =~= p@);
            return true;
        } else {
            proof {
                let x = choose|x: int| 0 <= x < m && s@[i + x] != p@[x];
                assert(s@.subrange(i as int, i + m)[x] != p@[x]);
            }
        }
        i = i + 1;
    }
    false
}

/// The stage calls a pipeline source must hold, in the order they are checked.
pub open spec fn required_tokens() -> Seq<Seq<char>> {
    seq!["lyrics()"@, "music()"@, "vocals()"@, "video()"@, "render()"@]
}

/// The first required token from position `k` on that `lowered` lacks.
pub open spec fn missing_token_from(lowered: Seq<char>, k: nat) -> Option<Seq<char>>
    decreases 5 - k,
{
    if k >= 5 {
        None
    } else if !contains_sub(lowered, required_tokens()[k as int]) {
        Some(required_tokens()[k as int])
    } else {
        missing_token_from(lowered, k + 1)
    }
}

/// The commands every accepted source compiles to.
pub open spec fn is_standard_commands(c: CompiledCommands) -> bool {
    &&& c.lyrics@ == LYRICS_CMD@
    &&& c.music@ == MUSIC_CMD@
    &&& c.vocals@ == VOCALS_CMD@
    &&& c.video@ == VIDEO_CMD@
    &&& c.render@ == RENDER_CMD@
}

/// Command of the lyrics stage.
pub const LYRICS_CMD: &'static str = "mkdir -p ./build && printf '%s\\n' '{\"schema\":\"css.lyrics.v1\",\"lines\":[\"demo\"]}' > ./build/lyrics.json";

/// Command of the music stage.
pub const MUSIC_CMD: &'static str = "mkdir -p ./build && : > ./build/music.wav";

/// Command of the vocals stage.
pub const VOCALS_CMD: &'static str = "mkdir -p ./build && : > ./build/vocals.wav";

/// Command of the video stages, which the video executor handles.
pub const VIDEO_CMD: &'static str = "echo \"video handled by video executor\"";

/// Command of the render stage.
pub const RENDER_CMD: &'static str = "mkdir -p ./build && (cp -f ./build/video/video.mp4 ./build/final_mv.mp4 2>/dev/null || : > ./build/final_mv.mp4)";

fn token(k: usize) -> (r: &'static str)
    requires
        k < 5,
    ensures
        r@ == required_tokens()[k as int],
{
    if k == 0 {
        "lyrics()"
    } else if k == 1 {
        "music()"
    } else if k == 2 {
        "vocals()"
    } else if k == 3 {
        "video()"
    } else {
        "render()"
    }
}

/// Checks an already lowercased pipeline source: it must mention `css` and call
/// each stage; the commands are then the standard ones.
pub fn compile_lowered(lowered: &str) -> (r: Result<CompiledCommands, DslError>)
    ensures
        (r == Err::<CompiledCommands, DslError>(DslError::MissingPrefix)) == !contains_sub(
            lowered@,
            "css"@,
        ),
        r matches Err(DslError::MissingToken(t)) ==> contains_sub(lowered@, "css"@)
            && missing_token_from(lowered@, 0) == Some(t@),
        contains_sub(lowered@, "css"@) && missing_token_from(lowered@, 0) is Some ==> r matches Err(
            DslError::MissingToken(_),
        ),
        r is Ok <==> contains_sub(lowered@, "css"@) && missing_token_from(lowered@, 0) is None,
        r matches Ok(c) ==> is_standard_commands(c),
{
    if !contains_str(lowered, "css") {
        return Err(DslError::MissingPrefix);
    }
    let mut k: usize = 0;
    while k < 5
        invariant
            k <= 5,
            contains_sub(lowered@, "css"@),
            missing_token_from(lowered@, 0) == missing_token_from(lowered@, k as nat),
        decreases 5 - k,
    {
        let t = token(k);
        if !contains_str(lowered, t) {
            return Err(DslError::MissingToken(String::from_str(t)));
        }
        k = k + 1;
    }
    Ok(
        CompiledCommands {
            lyrics: String::from_str(LYRICS_CMD),
            music: String::from_str(MUSIC_CMD),
            vocals: String::from_str(VOCALS_CMD),
            video: String::from_str(VIDEO_CMD),
            render: String::from_str(RENDER_CMD),
        },
    )
}

/// Compiles a pipeline source, compared without regard to case: the source
/// must mention `css` and call `lyrics()`, `music()`, `vocals()`, `video()` and
/// `render()`.
pub fn compile_from_dsl(dsl: &str) -> (r: Result<CompiledCommands, DslError>)
    ensures
        (r == Err::<CompiledCommands, DslError>(DslError::MissingPrefix)) == !contains_sub(
            lower_of(dsl@),
            "css"@,
        ),
        r matches Err(DslError::MissingToken(t)) ==> missing_token_from(lower_of(dsl@), 0) == Some(
            t@,
        ),
        r is Ok <==> contains_sub(lower_of(dsl@), "css"@) && missing_token_from(lower_of(dsl@), 0)
            is None,
        r matches Ok(c) ==> is_standard_commands(c),
{
    let lowered = lowercase(dsl);
    compile_lowered(lowered.as_str())
}

impl CompiledCommands {
    /// The command of `stage`: the video command serves the plan, assembly,
    /// shot and `video` stages; an unknown stage is an error naming it.
    pub fn command_for(&self, stage: &str) -> (r: Result<String, String>)
        ensures
            stage@ == "lyrics"@ ==> (r matches Ok(c) && c@ == self.lyrics@),
            stage@ == "music"@ ==> (r matches Ok(c) && c@ == self.music@),
            stage@ == "vocals"@ ==> (r matches Ok(c) && c@ == self.vocals@),
            stage@ == "video"@ || stage@ == "video_plan"@ || stage@ == "video_assemble"@
                || is_prefix_of("video_shot_"@, stage@) ==> (r matches Ok(c) && c@ == self.video@),
            stage@ == "render"@ ==> (r matches Ok(c) && c@ == self.render@),
            r is Err <==> !(stage@ == "lyrics"@ || stage@ == "music"@ || stage@ == "vocals"@
                || stage@ == "video"@ || stage@ == "video_plan"@ || stage@ == "video_assemble"@
                || stage@ == "render"@ || is_prefix_of("video_shot_"@, stage@)),
            r matches Err(e) ==> e@ == "missing command for stage="@ + stage@,
    {
        proof {
            reveal_strlit("lyrics");
            reveal_strlit("music");
            reveal_strlit("vocals");
            reveal_strlit("video");
            reveal_strlit("video_plan");
            reveal_strlit("video_assemble");
            reveal_strlit("render");
            reveal_strlit("video_shot_");
            assert("music"@.len() == 5 && "lyrics"@.len() == 6 && "vocals"@.len() == 6);
            assert("music"@ != "lyrics"@);
            assert("vocals"@[1] != "lyrics"@[1]);
            assert("vocals"@ != "lyrics"@);
            assert("video"@.len() == 5 && "video_plan"@.len() == 10 && "video_assemble"@.len() == 14);
            assert("render"@.len() == 6 && "video_shot_"@.len() == 11);
            assert("video"@[0] != "music"@[0]);
            assert("video"@ != "music"@);
            assert("render"@[0] != "lyrics"@[0] && "render"@[0] != "vocals"@[0]);
            assert("render"@ != "lyrics"@ && "render"@ != "vocals"@);
        }
        if str_eq(stage, "lyrics") {
            Ok(self.lyrics.clone())
        } else if str_eq(stage, "music") {
            Ok(self.music.clone())
        } else if str_eq(stage, "vocals") {
            Ok(self.vocals.clone())
        } else if str_eq(stage, "video") || str_eq(stage, "video_plan") || str_eq(
            stage,
            "video_assemble",
        ) {
            Ok(self.video.clone())
        } else if str_eq(stage, "render") {
            Ok(self.render.clone())
        } else if starts_with(stage, "video_shot_") {
            Ok(self.video.clone())
        } else {
            let mut e = String::from_str("missing command for stage=");
            e.append(stage);
            Err(e)
        }
    }
}

/// Command run for the assembly stage, which the video executor handles.
pub const ASSEMBLE_CMD: &'static str = "echo video assemble by internal dispatch";

/// The command and declared outputs of each template stage.
pub open spec fn stage_plan_spec(c: CompiledCommands, stage: Seq<char>) -> Option<
    (Seq<char>, Seq<Seq<char>>),
> {
    if stage == "lyrics"@ {
        Some((c.lyrics@, seq!["./build/lyrics.json"@]))
    } else if stage == "music"@ {
        Some((c.music@, seq!["./build/music.wav"@]))
    } else if stage == "vocals"@ {
        Some((c.vocals@, seq!["./build/vocals.wav"@]))
    } else if stage == "video_plan"@ {
        Some((c.video@, seq!["./build/storyboard.json"@]))
    } else if stage == "video_assemble"@ {
        Some((ASSEMBLE_CMD@, seq!["./build/video/video.mp4"@]))
    } else if stage == "render"@ {
        Some((c.render@, seq!["./build/final_mv.mp4"@]))
    } else {
        None
    }
}

fn plan_entry(cmd: &str, output: &str) -> (r: (String, Vec<String>))
    ensures
        r.0@ == cmd@,
        crate::dag::names_of(r.1@) == seq![output@],
{
    let v = vec![String::from_str(output)];
    assert(crate::dag::names_of(v@) =~= seq![output@]);
    (String::from_str(cmd), v)
}

/// The command and declared outputs of a template stage; `None` for any other.
pub fn stage_plan(c: &CompiledCommands, stage: &str) -> (r: Option<(String, Vec<String>)>)
    ensures
        match (r, stage_plan_spec(*c, stage@)) {
            (Some((cmd, outs)), Some((cmd2, outs2))) => cmd@ == cmd2 && crate::dag::names_of(outs@)
                == outs2,
            (None, None) => true,
            _ => false,
        },
{
    if str_eq(stage, "lyrics") {
        Some(plan_entry(c.lyrics.as_str(), "./build/lyrics.json"))
    } else if str_eq(stage, "music") {
        Some(plan_entry(c.music.as_str(), "./build/music.wav"))
    } else if str_eq(stage, "vocals") {
        Some(plan_entry(c.vocals.as_str(), "./build/vocals.wav"))
    } else if str_eq(stage, "video_plan") {
        Some(plan_entry(c.video.as_str(), "./build/storyboard.json"))
    } else if str_eq(stage, "video_assemble") {
        Some(plan_entry(ASSEMBLE_CMD, "./build/video/video.mp4"))
    } else if str_eq(stage, "render") {
        Some(plan_entry(c.render.as_str(), "./build/final_mv.mp4"))
    } else {
        None
    }
}

/// Stages that the video executor runs: `video`, the plan, the assembly and shots.
pub open spec fn is_video_stage_spec(stage: Seq<char>) -> bool {
    stage == "video"@ || stage == "video_plan"@ || stage == "video_assemble"@
        || crate::ready::is_shot_name(stage)
}

/// Whether the video executor runs `stage`.
pub fn is_video_stage(stage: &str) -> (r: bool)
    ensures
        r == is_video_stage_spec(stage@),
{
    str_eq(stage, "video") || str_eq(stage, "video_plan") || str_eq(stage, "video_assemble")
        || crate::ready::is_video_shot_stage(stage)
}

} // verus!
