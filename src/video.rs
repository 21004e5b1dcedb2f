use crate::paths::{join_path, join_spec};
use vstd::prelude::*;

verus! {

/// Error of the video executor.
#[derive(Debug, Clone)]
pub struct VideoError(pub String);

/// Where the video executor works and how many shots it renders at once.
#[derive(Debug, Clone)]
pub struct VideoExecutor {
    pub out_dir: String,
    pub concurrency: usize,
    pub stub: bool,
}

/// Output of the planning step.
#[derive(Debug, Clone)]
pub struct PlanResult {
    pub storyboard_path: String,
}

/// Output of rendering one shot.
#[derive(Debug, Clone)]
pub struct RenderShotResult {
    pub mp4_path: String,
}

/// Output of the assembly step.
#[derive(Debug, Clone)]
pub struct AssembleResult {
    pub video_mp4: String,
}

impl VideoExecutor {
    /// An executor over `out_dir`; a concurrency of 0 is raised to 1.
    pub fn with_options(out_dir: String, concurrency: usize, stub: bool) -> (v: VideoExecutor)
        ensures
            v.out_dir == out_dir,
            v.concurrency == if concurrency == 0 {
                1
            } else {
                concurrency
            },
            v.stub == stub,
    {
        VideoExecutor { out_dir, concurrency: if concurrency == 0 { 1 } else { concurrency }, stub }
    }

    /// `<out_dir>/build`.
    pub fn build_dir(&self) -> (r: String)
        ensures
            r@ == join_spec(self.out_dir@, "build"@),
    {
        join_path(self.out_dir.as_str(), "build")
    }

    /// `<out_dir>/build/storyboard.json`.
    pub fn storyboard_path(&self) -> (r: String)
        ensures
            r@ == join_spec(join_spec(self.out_dir@, "build"@), "storyboard.json"@),
    {
        let b = self.build_dir();
        join_path(b.as_str(), "storyboard.json")
    }

    /// `<out_dir>/build/video`.
    pub fn video_dir(&self) -> (r: String)
        ensures
            r@ == join_spec(join_spec(self.out_dir@, "build"@), "video"@),
    {
        let b = self.build_dir();
        join_path(b.as_str(), "video")
    }

    /// `<out_dir>/build/video/shots`.
    pub fn shots_dir(&self) -> (r: String)
        ensures
            r@ == join_spec(join_spec(join_spec(self.out_dir@, "build"@), "video"@), "shots"@),
    {
        let v = self.video_dir();
        join_path(v.as_str(), "shots")
    }

    /// `<out_dir>/build/video/video.mp4`.
    pub fn assembled_video_path(&self) -> (r: String)
        ensures
            r@ == join_spec(join_spec(join_spec(self.out_dir@, "build"@), "video"@), "video.mp4"@),
    {
        let v = self.video_dir();
        join_path(v.as_str(), "video.mp4")
    }
}

} // verus!
