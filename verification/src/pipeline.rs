//! The pipeline orchestrator: the staged sequence that turns a scene
//! document plus runtime parameters into an encoded image, and the generate
//! path that produces a fresh scene document.
//!
//! Each stage's failure aborts the run with a typed, stage-naming error;
//! stage progress is reported as `[i/N] ...` lines collected for the caller
//! to print. File reads and writes happen outside the library: the caller
//! hands the scene document and the decoded assets in as plain values and
//! takes the encoded image bytes back.

use vstd::prelude::*;

use crate::assets::{missing_at, refs_resolve, AssetBundle, AssetError, LoadedAsset,
    ValidationError};
use crate::cli::{CliCommand, CliConfig};
use crate::codec::{encode_scene, lemma_scene_roundtrip, parse_scene, spec_encode, spec_parse,
    LoadError};
use crate::config::{compile, compiled_for, derived_height, RenderConfig};
use crate::engine::{failed_prefix, image_spec, lemma_mul_le, render, RenderOutput};
use crate::ppm::{encode_ppm, spec_ppm};
use crate::progress::ProgressReporter;
use crate::scene::{Camera, Color, PersistedScene, Radiance, SceneV, Shape, Surface, SurfaceV};
use crate::text::{dec_spec, push_dec};
use vstd::string::StringSliceAdditionalSpecFns;

verus! {

/// One stage line: `[step/total] message...`.
pub open spec fn log_line(step: nat, total: nat, msg: Seq<u8>) -> Seq<u8> {
    seq![91u8] + dec_spec(step) + seq![47u8] + dec_spec(total) + seq![93u8, 32u8] + msg + seq![
        46u8,
        46u8,
        46u8,
    ]
}

/// Numbers the stages of a pipeline run and renders one announcement line
/// per stage.
pub struct StepLogger {
    pub step: u8,
    pub num_of_steps: u8,
}

impl StepLogger {
    /// A logger for a pipeline of `num_of_steps` stages.
    pub fn new(num_of_steps: u8) -> (r: StepLogger)
        ensures
            r.step == 1,
            r.num_of_steps == num_of_steps,
    {
        StepLogger { step: 1, num_of_steps }
    }

    /// The announcement line for the next stage; steps past the declared
    /// total are not announced.
    pub fn log(&mut self, msg: &[u8]) -> (line: Vec<u8>)
        requires
            old(self).step <= old(self).num_of_steps,
            old(self).num_of_steps < u8::MAX,
        ensures
            final(self).step == old(self).step + 1,
            final(self).num_of_steps == old(self).num_of_steps,
            line@ == log_line(old(self).step as nat, old(self).num_of_steps as nat, msg@),
    {
        let mut line: Vec<u8> = Vec::new();
        line.push(91);
        push_dec(&mut line, self.step as u64);
        line.push(47);
        push_dec(&mut line, self.num_of_steps as u64);
        line.push(93);
        line.push(32);
        crate::text::push_bytes(&mut line, msg);
        line.push(46);
        line.push(46);
        line.push(46);
        proof {
            assert(line@ =~= log_line(self.step as nat, self.num_of_steps as nat, msg@));
        }
        self.step = self.step + 1;
        line
    }
}

/// A fatal stage failure; the variant names the stage that failed.
#[derive(Debug)]
pub enum PipelineError {
    Load(LoadError),
    Asset(AssetError),
    Validation(ValidationError),
    /// The requested image exceeds what the machine's words can index: the
    /// pixel count must fit a `usize` and the sample budget a `u64`.
    ResourceLimit,
}

/// The stage-6 diagnostic: the recovered-failure count when there is one,
/// a clean-completion notice otherwise.
pub open spec fn check_errors_msg(failed: u64) -> Seq<u8> {
    if failed > 0 {
        ("Checking for errors: found ").spec_bytes() + dec_spec(failed as nat) + (
        " rays with errors").spec_bytes()
    } else {
        ("Checking for errors: no errors").spec_bytes()
    }
}

/// The seven announcement lines of a completed render run, in stage order.
pub open spec fn render_log_spec(failed: u64) -> Seq<Seq<u8>> {
    seq![
        log_line(1, 7, ("Loading image yaml").spec_bytes()),
        log_line(2, 7, ("Loading assets").spec_bytes()),
        log_line(3, 7, ("Validating assets").spec_bytes()),
        log_line(4, 7, ("Creating config").spec_bytes()),
        log_line(5, 7, ("Rendering").spec_bytes()),
        log_line(6, 7, check_errors_msg(failed)),
        log_line(7, 7, ("Printing image").spec_bytes()),
    ]
}

/// The two announcement lines of a completed generate run, in stage order.
pub open spec fn generate_log_spec() -> Seq<Seq<u8>> {
    seq![
        log_line(1, 2, ("Generating scene").spec_bytes()),
        log_line(2, 2, ("Writing image yaml").spec_bytes()),
    ]
}

/// What a successful render run hands back: the raw output, its encoded
/// form, and the stage announcement lines in order.
pub struct RenderArtifacts {
    pub output: RenderOutput,
    pub ppm: Vec<u8>,
    pub log: Vec<Vec<u8>>,
}

/// What holds of a successful render run: the document parsed, the image is
/// the one the materialized configuration specifies — fully written at the
/// requested width and the aspect-derived height — the failure count is the
/// configuration's and respects the sample budget, and the bytes are the
/// image's encoding.
pub open spec fn render_ok_spec(
    art: RenderArtifacts,
    st: Seq<u8>,
    width: u64,
    rays: u64,
    assets_in: Seq<LoadedAsset>,
) -> bool {
    &&& spec_parse(st) is Some
    &&& crate::scene::wf_scene(spec_parse(st)->Some_0)
    &&& exists|cfg: RenderConfig|
        {
            &&& #[trigger] compiled_for(cfg, spec_parse(st)->Some_0, assets_in, width, rays)
            &&& art.output.image.data@ == image_spec(cfg)
            &&& art.output.failed_rays as int == failed_prefix(
                cfg,
                (cfg.width as int) * (cfg.height as int),
            )
        }
    &&& art.output.image.width == width
    &&& art.output.image.height as int == derived_height(
        width as int,
        spec_parse(st)->Some_0.camera,
    )
    &&& art.output.image.wf()
    &&& forall|q: int|
        0 <= q < art.output.image.data@.len() ==> (#[trigger] art.output.image.data@[q]) is Some
    &&& art.output.failed_rays as int <= (width as int) * (art.output.image.height as int) * (
    rays as int)
    &&& art.ppm@ == spec_ppm(art.output.image)
    &&& art.log@.map_values(|l: Vec<u8>| l@) == render_log_spec(art.output.failed_rays)
}

/// What holds of a failed render run: the error names the earliest stage
/// that could not complete.
pub open spec fn render_err_spec(
    e: PipelineError,
    st: Seq<u8>,
    width: u64,
    rays: u64,
    assets_in: Seq<LoadedAsset>,
) -> bool {
    match e {
        PipelineError::Load(_) => spec_parse(st) is None,
        PipelineError::Asset(ae) => spec_parse(st) is Some && exists|j: int|
            0 <= j < assets_in.len() && !(#[trigger] assets_in[j]).image.wf() && ae.name@
                == assets_in[j].name@ && (forall|k: int|
                0 <= k < j ==> (#[trigger] assets_in[k]).image.wf()),
        PipelineError::Validation(ve) => {
            &&& spec_parse(st) is Some
            &&& forall|j: int| 0 <= j < assets_in.len() ==> (#[trigger] assets_in[j]).image.wf()
            &&& exists|i: int|
                0 <= i < spec_parse(st)->Some_0.surfaces.len() && #[trigger] missing_at(
                    spec_parse(st)->Some_0,
                    assets_in,
                    i,
                ) && ve.missing@ == spec_parse(st)->Some_0.surfaces[i].texture->Some_0 && forall|
                    j: int,
                |
                    0 <= j < i ==> !missing_at(spec_parse(st)->Some_0, assets_in, j)
        },
        PipelineError::ResourceLimit => {
            &&& spec_parse(st) is Some
            &&& forall|j: int| 0 <= j < assets_in.len() ==> (#[trigger] assets_in[j]).image.wf()
            &&& refs_resolve(spec_parse(st)->Some_0, assets_in)
            &&& {
                let h = derived_height(width as int, spec_parse(st)->Some_0.camera);
                (width as int) * h > usize::MAX || (width as int) * h * (rays as int) > u64::MAX
            }
        },
    }
}

/// The render pipeline, strictly staged: load the scene from its document,
/// bundle the decoded assets, validate the scene's references against the
/// bundle, compile the configuration, render, account for recovered
/// failures, and encode the image. The first stage that cannot complete
/// aborts the run with its typed error; later stages never run.
pub fn run_render(
    scene_text: &Vec<u8>,
    width: u64,
    num_of_rays: u64,
    num_of_threads: usize,
    assets_in: Vec<LoadedAsset>,
) -> (r: Result<RenderArtifacts, PipelineError>)
    requires
        num_of_threads >= 1,
        width <= u32::MAX,
    ensures
        match r {
            Result::Ok(art) => render_ok_spec(art, scene_text@, width, num_of_rays, assets_in@),
            Result::Err(e) => render_err_spec(e, scene_text@, width, num_of_rays, assets_in@),
        },
{
    let mut log: Vec<Vec<u8>> = Vec::new();
    let mut steps = StepLogger::new(7);

    log.push(steps.log("Loading image yaml".as_bytes()));
    let scene = match parse_scene(scene_text.as_slice()) {
        Result::Err(e) => {
            return Result::Err(PipelineError::Load(e));
        },
        Result::Ok(s) => s,
    };

    log.push(steps.log("Loading assets".as_bytes()));
    let bundle = match AssetBundle::new(assets_in) {
        Result::Err(e) => {
            return Result::Err(PipelineError::Asset(e));
        },
        Result::Ok(b) => b,
    };

    proof {
        assert forall|j: int| 0 <= j < assets_in@.len() implies (#[trigger] assets_in@[j]).image.wf() by {
            assert(assets_in@[j] == bundle.assets@[j]);
        }
    }
    log.push(steps.log("Validating assets".as_bytes()));
    match crate::assets::validate(&scene, &bundle) {
        Result::Err(e) => {
            return Result::Err(PipelineError::Validation(e));
        },
        Result::Ok(_) => {},
    };
    proof {
        assert(refs_resolve(spec_parse(scene_text@)->Some_0, assets_in@));
    }

    log.push(steps.log("Creating config".as_bytes()));
    let cfg = compile(&scene, bundle, width, num_of_rays);

    proof {
        lemma_mul_le(cfg.width as int, cfg.height as int, u32::MAX as int, u64::MAX as int);
    }
    let wh = (cfg.width as u128) * (cfg.height as u128);
    if wh > (usize::MAX as u128) || wh > (u64::MAX as u128) {
        return Result::Err(PipelineError::ResourceLimit);
    }
    proof {
        lemma_mul_le(wh as int, cfg.samples_per_pixel as int, u64::MAX as int, u64::MAX as int);
    }
    let budget = wh * (cfg.samples_per_pixel as u128);
    if budget > (u64::MAX as u128) {
        return Result::Err(PipelineError::ResourceLimit);
    }

    log.push(steps.log("Rendering".as_bytes()));
    let mut progress = ProgressReporter::new(wh as u64);
    let output = render(&cfg, num_of_threads, &mut progress);

    if output.failed_rays > 0 {
        let mut msg: Vec<u8> = Vec::new();
        crate::text::push_bytes(&mut msg, "Checking for errors: found ".as_bytes());
        push_dec(&mut msg, output.failed_rays);
        crate::text::push_bytes(&mut msg, " rays with errors".as_bytes());
        log.push(steps.log(msg.as_slice()));
    } else {
        log.push(steps.log("Checking for errors: no errors".as_bytes()));
    }

    log.push(steps.log("Printing image".as_bytes()));
    let ppm = encode_ppm(&output.image);

    let art = RenderArtifacts { output, ppm, log };
    proof {
        assert(compiled_for(cfg, spec_parse(scene_text@)->Some_0, assets_in@, width, num_of_rays)
            && art.output.image.data@ == image_spec(cfg) && art.output.failed_rays as int
            == failed_prefix(cfg, (cfg.width as int) * (cfg.height as int)));
        assert(art.log@.map_values(|l: Vec<u8>| l@) =~= render_log_spec(art.output.failed_rays));
    }
    Result::Ok(art)
}

/// The scene the generate path produces: a fixed sample scene with a
/// rectangle floating in front of a flat plane, no textures.
pub open spec fn demo_scene() -> SceneV {
    SceneV {
        camera: Camera { aspect_w: 4, aspect_h: 3 },
        background: Color { r: 135, g: 206, b: 235 },
        surfaces: seq![
            SurfaceV {
                shape: Shape::Rect { u0: 200, v0: 300, u1: 800, v1: 700 },
                radiance: Radiance { r: 250, g: 40, b: 40 },
                texture: Option::None,
            },
            SurfaceV {
                shape: Shape::Plane,
                radiance: Radiance { r: 60, g: 160, b: 80 },
                texture: Option::None,
            },
        ],
    }
}

/// Builds the generated scene.
pub fn build_scene_config() -> (r: PersistedScene)
    ensures
        r@ == demo_scene(),
        crate::scene::wf_scene(r@),
{
    let mut surfaces: Vec<Surface> = Vec::new();
    surfaces.push(
        Surface {
            shape: Shape::Rect { u0: 200, v0: 300, u1: 800, v1: 700 },
            radiance: Radiance { r: 250, g: 40, b: 40 },
            texture: Option::None,
        },
    );
    surfaces.push(
        Surface {
            shape: Shape::Plane,
            radiance: Radiance { r: 60, g: 160, b: 80 },
            texture: Option::None,
        },
    );
    let r = PersistedScene {
        camera: Camera { aspect_w: 4, aspect_h: 3 },
        background: Color { r: 135, g: 206, b: 235 },
        surfaces,
    };
    proof {
        assert(r@.surfaces =~= demo_scene().surfaces);
        assert(r@ =~~= demo_scene());
    }
    r
}

/// The generate pipeline: produce the sample scene, then lay down its
/// document. The document is exactly the generated scene's encoding, so by
/// the store's round trip it loads back as that very scene.
pub fn run_generate() -> (r: (Vec<u8>, Vec<Vec<u8>>))
    ensures
        r.0@ == spec_encode(demo_scene()),
        spec_parse(r.0@) == Option::Some(demo_scene()),
        r.1@.map_values(|l: Vec<u8>| l@) == generate_log_spec(),
{
    let mut log: Vec<Vec<u8>> = Vec::new();
    let mut steps = StepLogger::new(2);
    log.push(steps.log("Generating scene".as_bytes()));
    let scene = build_scene_config();
    log.push(steps.log("Writing image yaml".as_bytes()));
    let text = encode_scene(&scene);
    proof {
        lemma_scene_roundtrip(scene@);
        assert(log@.map_values(|l: Vec<u8>| l@) =~= generate_log_spec());
    }
    (text, log)
}

/// What the process's surroundings hand a run: the scene document and the
/// decoded assets for a render, nothing for a generate.
pub enum RunInput {
    Render { scene_text: Vec<u8>, assets: Vec<LoadedAsset> },
    Generate,
}

/// What a run hands back.
pub enum RunArtifacts {
    Rendered(RenderArtifacts),
    Generated { scene_text: Vec<u8>, log: Vec<Vec<u8>> },
}

/// Dispatches a validated invocation: the render pipeline for RENDER, the
/// generate pipeline for GENERATE.
pub fn run(config: CliConfig, input: RunInput) -> (r: Result<RunArtifacts, PipelineError>)
    requires
        match config.command {
            CliCommand::RENDER { width, num_of_threads, .. } => {
                &&& input is Render
                &&& num_of_threads >= 1
                &&& width <= u32::MAX
            },
            CliCommand::GENERATE => input is Generate,
        },
    ensures
        match config.command {
            CliCommand::GENERATE => match r {
                Result::Ok(RunArtifacts::Generated { scene_text, log }) => {
                    &&& scene_text@ == spec_encode(demo_scene())
                    &&& spec_parse(scene_text@) == Option::Some(demo_scene())
                    &&& log@.map_values(|l: Vec<u8>| l@) == generate_log_spec()
                },
                _ => false,
            },
            CliCommand::RENDER { width, num_of_rays, .. } => match (r, input) {
                (
                    Result::Ok(RunArtifacts::Rendered(art)),
                    RunInput::Render { scene_text, assets },
                ) => render_ok_spec(art, scene_text@, width, num_of_rays, assets@),
                (Result::Err(e), RunInput::Render { scene_text, assets }) => render_err_spec(
                    e,
                    scene_text@,
                    width,
                    num_of_rays,
                    assets@,
                ),
                _ => false,
            },
        },
{
    match config.command {
        CliCommand::RENDER { width, output_path: _, num_of_rays, num_of_threads } => {
            match input {
                RunInput::Render { scene_text, assets } => {
                    match run_render(&scene_text, width, num_of_rays, num_of_threads, assets) {
                        Result::Ok(art) => Result::Ok(RunArtifacts::Rendered(art)),
                        Result::Err(e) => Result::Err(e),
                    }
                },
                RunInput::Generate => {
                    proof {
                        assert(false);
                    }
                    Result::Err(PipelineError::ResourceLimit)
                },
            }
        },
        CliCommand::GENERATE => {
            match input {
                RunInput::Generate => {
                    let (scene_text, log) = run_generate();
                    Result::Ok(RunArtifacts::Generated { scene_text, log })
                },
                RunInput::Render { .. } => {
                    proof {
                        assert(false);
                    }
                    Result::Err(PipelineError::ResourceLimit)
                },
            }
        },
    }
}

} // verus!
