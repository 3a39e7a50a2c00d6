//! Structured error reporting for the kernel engine.
//!
//! Every operation in this crate returns `SpiceResult<T>`: either a value or a
//! `SpiceError` carrying a typed failure code, a human-readable message, an
//! optional call trace and optional details.

use vstd::prelude::*;

verus! {

/// Failure codes for every operation of the engine.
#[derive(Debug, Clone, Copy, PartialEq, Eq, Structural)]
pub enum SpiceErrorType {
    /// Kernel file not found or could not be loaded
    KernelNotFound,
    /// Invalid time string or time conversion error
    InvalidTime,
    /// Invalid target body name or ID
    InvalidTarget,
    /// Invalid observer body name or ID
    InvalidObserver,
    /// Invalid reference frame name
    InvalidFrame,
    /// Invalid aberration correction specification
    InvalidAberrationCorrection,
    /// Mathematical computation error (division by zero, non-convergence, ...)
    ComputationError,
    /// File I/O error
    FileIOError,
    /// Memory allocation error
    MemoryError,
    /// Invalid function argument
    InvalidArgument,
    /// Kernel data insufficient for requested operation
    InsufficientData,
    /// Numerical integration or interpolation failure
    NumericalError,
    /// Kernel already loaded error
    KernelAlreadyLoaded,
    /// Kernel loading error
    KernelLoadError,
    /// Too many kernels loaded
    TooManyKernels,
    /// Invalid kernel path
    InvalidKernelPath,
    /// Invalid kernel data format
    InvalidKernelData,
    /// File read error
    FileReadError,
    /// Kernel pool not initialized error
    PoolNotInitialized,
    /// Invalid data type for kernel pool operations
    InvalidDataType,
    /// Invalid format (e.g., malformed text kernel)
    InvalidFormat,
    /// Invalid index (e.g., array index out of bounds)
    InvalidIndex,
    /// Generic engine error
    SpiceError,
}

/// The tag string for each error type, as a sequence of characters.
pub open spec fn spec_error_type_string(t: SpiceErrorType) -> Seq<char> {
    match t {
        SpiceErrorType::KernelNotFound => "KERNEL_NOT_FOUND"@,
        SpiceErrorType::InvalidTime => "INVALID_TIME"@,
        SpiceErrorType::InvalidTarget => "INVALID_TARGET"@,
        SpiceErrorType::InvalidObserver => "INVALID_OBSERVER"@,
        SpiceErrorType::InvalidFrame => "INVALID_FRAME"@,
        SpiceErrorType::InvalidAberrationCorrection => "INVALID_ABERRATION_CORRECTION"@,
        SpiceErrorType::ComputationError => "COMPUTATION_ERROR"@,
        SpiceErrorType::FileIOError => "FILE_IO_ERROR"@,
        SpiceErrorType::MemoryError => "MEMORY_ERROR"@,
        SpiceErrorType::InvalidArgument => "INVALID_ARGUMENT"@,
        SpiceErrorType::InsufficientData => "INSUFFICIENT_DATA"@,
        SpiceErrorType::NumericalError => "NUMERICAL_ERROR"@,
        SpiceErrorType::KernelAlreadyLoaded => "KERNEL_ALREADY_LOADED"@,
        SpiceErrorType::KernelLoadError => "KERNEL_LOAD_ERROR"@,
        SpiceErrorType::TooManyKernels => "TOO_MANY_KERNELS"@,
        SpiceErrorType::InvalidKernelPath => "INVALID_KERNEL_PATH"@,
        SpiceErrorType::InvalidKernelData => "INVALID_KERNEL_DATA"@,
        SpiceErrorType::FileReadError => "FILE_READ_ERROR"@,
        SpiceErrorType::PoolNotInitialized => "POOL_NOT_INITIALIZED"@,
        SpiceErrorType::InvalidDataType => "INVALID_DATA_TYPE"@,
        SpiceErrorType::InvalidFormat => "INVALID_FORMAT"@,
        SpiceErrorType::InvalidIndex => "INVALID_INDEX"@,
        SpiceErrorType::SpiceError => "SPICE_ERROR"@,
    }
}

/// Structured error with type, message, and optional call trace.
#[derive(Debug, Clone)]
pub struct SpiceError {
    pub error_type: SpiceErrorType,
    pub message: String,
    pub function_trace: Vec<String>,
    pub details: Option<String>,
}

impl SpiceError {
    /// Create a new error with an empty trace and no details.
    pub fn new(error_type: SpiceErrorType, message: String) -> (r: Self)
        ensures
            r.error_type == error_type,
            r.message@ == message@,
            r.function_trace@.len() == 0,
            r.details is None,
    {
        SpiceError { error_type, message, function_trace: Vec::new(), details: None }
    }

    /// Append a function name to the call trace.
    pub fn add_trace(self, function_name: String) -> (r: Self)
        ensures
            r.error_type == self.error_type,
            r.message@ == self.message@,
            r.function_trace@ == self.function_trace@.push(function_name),
            r.details == self.details,
    {
        let mut e = self;
        e.function_trace.push(function_name);
        e
    }

    /// Attach additional details to the error.
    pub fn with_details(self, details: String) -> (r: Self)
        ensures
            r.error_type == self.error_type,
            r.message@ == self.message@,
            r.function_trace@ == self.function_trace@,
            r.details == Some(details),
    {
        let mut e = self;
        e.details = Some(details);
        e
    }

    /// The tag string of this error's type.
    pub fn error_type_string(&self) -> (r: &'static str)
        ensures
            r@ == spec_error_type_string(self.error_type),
    {
        match self.error_type {
            SpiceErrorType::KernelNotFound => "KERNEL_NOT_FOUND",
            SpiceErrorType::InvalidTime => "INVALID_TIME",
            SpiceErrorType::InvalidTarget => "INVALID_TARGET",
            SpiceErrorType::InvalidObserver => "INVALID_OBSERVER",
            SpiceErrorType::InvalidFrame => "INVALID_FRAME",
            SpiceErrorType::InvalidAberrationCorrection => "INVALID_ABERRATION_CORRECTION",
            SpiceErrorType::ComputationError => "COMPUTATION_ERROR",
            SpiceErrorType::FileIOError => "FILE_IO_ERROR",
            SpiceErrorType::MemoryError => "MEMORY_ERROR",
            SpiceErrorType::InvalidArgument => "INVALID_ARGUMENT",
            SpiceErrorType::InsufficientData => "INSUFFICIENT_DATA",
            SpiceErrorType::NumericalError => "NUMERICAL_ERROR",
            SpiceErrorType::KernelAlreadyLoaded => "KERNEL_ALREADY_LOADED",
            SpiceErrorType::KernelLoadError => "KERNEL_LOAD_ERROR",
            SpiceErrorType::TooManyKernels => "TOO_MANY_KERNELS",
            SpiceErrorType::InvalidKernelPath => "INVALID_KERNEL_PATH",
            SpiceErrorType::InvalidKernelData => "INVALID_KERNEL_DATA",
            SpiceErrorType::FileReadError => "FILE_READ_ERROR",
            SpiceErrorType::PoolNotInitialized => "POOL_NOT_INITIALIZED",
            SpiceErrorType::InvalidDataType => "INVALID_DATA_TYPE",
            SpiceErrorType::InvalidFormat => "INVALID_FORMAT",
            SpiceErrorType::InvalidIndex => "INVALID_INDEX",
            SpiceErrorType::SpiceError => "SPICE_ERROR",
        }
    }
}

/// Result type for all engine operations.
pub type SpiceResult<T> = Result<T, SpiceError>;

/// A call-stack trace kept alongside long computations for diagnostics.
#[derive(Debug, Clone)]
pub struct ErrorTrace {
    function_stack: Vec<String>,
}

impl View for ErrorTrace {
    type V = Seq<String>;

    /// The trace is modelled as the sequence of recorded function names,
    /// outermost first.
    closed spec fn view(&self) -> Seq<String> {
        self.function_stack@
    }
}

impl ErrorTrace {
    /// An empty trace.
    pub fn new() -> (r: Self)
        ensures
            r@.len() == 0,
    {
        ErrorTrace { function_stack: Vec::new() }
    }

    /// Record entry into a function.
    pub fn enter_function(&mut self, name: String)
        ensures
            final(self)@ == old(self)@.push(name),
    {
        self.function_stack.push(name);
    }

    /// Record exit from the innermost function; a no-op on an empty trace.
    pub fn exit_function(&mut self)
        ensures
            old(self)@.len() == 0 ==> final(self)@ == old(self)@,
            old(self)@.len() > 0 ==> final(self)@ == old(self)@.drop_last(),
    {
        let _ = self.function_stack.pop();
    }

    /// The current stack of function names, outermost first.
    pub fn get_stack(&self) -> (r: &[String])
        ensures
            r@ == self@,
    {
        self.function_stack.as_slice()
    }
}

/// Whether a global failure flag is set. Errors are carried by `SpiceResult`
/// instead of global state, so this is always false.
pub fn has_failed() -> (r: bool)
    ensures
        r == false,
{
    false
}

/// Reset the (nonexistent) global error state; retained for API compatibility.
pub fn reset_error_state() {
}

} // verus!
