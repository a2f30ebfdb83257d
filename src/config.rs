use vstd::prelude::*;

verus! {

/// A run configuration that cannot be carried out; detected before any
/// frame is processed.
#[derive(Clone, Copy, Debug, PartialEq, Eq, Structural)]
pub enum ConfigError {
    /// The number of tracked subjects is neither one nor two.
    InvalidSubjectCount,
    /// The frame decimation step is zero.
    InvalidStep,
    /// The preview interval is zero.
    InvalidPreviewStep,
}

impl ConfigError {
    /// A short human-readable description.
    pub fn message(&self) -> (r: &'static str)
        ensures
            *self == ConfigError::InvalidSubjectCount ==> r@ == "Invalid persons value"@,
            *self == ConfigError::InvalidStep ==> r@ == "Invalid step value"@,
            *self == ConfigError::InvalidPreviewStep ==> r@ == "Invalid preview value"@,
    {
        match self {
            ConfigError::InvalidSubjectCount => {
                proof { reveal_strlit("Invalid persons value"); }
                "Invalid persons value"
            },
            ConfigError::InvalidStep => {
                proof { reveal_strlit("Invalid step value"); }
                "Invalid step value"
            },
            ConfigError::InvalidPreviewStep => {
                proof { reveal_strlit("Invalid preview value"); }
                "Invalid preview value"
            },
        }
    }
}

/// The configuration check that precedes a run: the decimation step and the
/// preview interval must be at least one, and one or two subjects are tracked.
pub fn validate_config(frame_step_size: u32, preview_frames: u32, persons: u8) -> (r: Result<
    (),
    ConfigError,
>)
    ensures
        frame_step_size < 1 ==> r == Err::<(), ConfigError>(ConfigError::InvalidStep),
        frame_step_size >= 1 && preview_frames < 1 ==> r == Err::<(), ConfigError>(
            ConfigError::InvalidPreviewStep,
        ),
        frame_step_size >= 1 && preview_frames >= 1 && (persons < 1 || persons > 2) ==> r == Err::<
            (),
            ConfigError,
        >(ConfigError::InvalidSubjectCount),
        r is Ok <==> (frame_step_size >= 1 && preview_frames >= 1 && 1 <= persons <= 2),
{
    if frame_step_size < 1 {
        return Err(ConfigError::InvalidStep);
    }
    if preview_frames < 1 {
        return Err(ConfigError::InvalidPreviewStep);
    }
    if persons < 1 || persons > 2 {
        return Err(ConfigError::InvalidSubjectCount);
    }
    Ok(())
}

} // verus!
