use vstd::prelude::*;

verus! {

/// Every way in which a request to the engine can fail.
#[derive(Clone, Copy, Debug, PartialEq, Eq, Structural)]
pub enum EngineError {
    /// A buffer of zero width or height, one too large to address, or
    /// buffers of differing sizes where equal sizes are needed.
    InvalidDimension,
    /// A pixel coordinate outside the buffer.
    OutOfBounds,
    /// A ray with no depth, which no projection can map.
    DegenerateProjection,
    /// Fewer than four point correspondences.
    InsufficientCorrespondences,
    /// Correspondences that do not determine a projective transform.
    SingularSystem,
    /// An operation of unknown kind, or one whose parameters are missing
    /// or out of range.
    MalformedPipelineDescriptor,
}

impl EngineError {
    /// The name of the error, as a host would report it.
    pub fn name(&self) -> (r: String)
        ensures
            r@ == self.name_text(),
    {
        match self {
            EngineError::InvalidDimension => "InvalidDimension".to_owned(),
            EngineError::OutOfBounds => "OutOfBounds".to_owned(),
            EngineError::DegenerateProjection => "DegenerateProjection".to_owned(),
            EngineError::InsufficientCorrespondences => "InsufficientCorrespondences".to_owned(),
            EngineError::SingularSystem => "SingularSystem".to_owned(),
            EngineError::MalformedPipelineDescriptor => "MalformedPipelineDescriptor".to_owned(),
        }
    }

    /// The characters of the error's name.
    pub open spec fn name_text(&self) -> Seq<char> {
        match self {
            EngineError::InvalidDimension => "InvalidDimension"@,
            EngineError::OutOfBounds => "OutOfBounds"@,
            EngineError::DegenerateProjection => "DegenerateProjection"@,
            EngineError::InsufficientCorrespondences => "InsufficientCorrespondences"@,
            EngineError::SingularSystem => "SingularSystem"@,
            EngineError::MalformedPipelineDescriptor => "MalformedPipelineDescriptor"@,
        }
    }
}

} // verus!
