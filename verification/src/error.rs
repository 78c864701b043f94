use vstd::prelude::*;

verus! {

/// `std::io::Error`, carried through `RuntimeError::IoError` unread.
#[verifier::external_type_specification]
#[verifier::external_body]
pub struct ExIoError(std::io::Error);

/// Errors raised while building, wiring or running the dispatcher.
#[derive(Debug)]
pub enum RuntimeError {
    ComponentNotFound(String),
    InvalidInput(String, String),
    ProcessingError { component: String, event_id: String, reason: String },
    ConfigError(String),
    InitError(String),
    ChannelError(String),
    IoError(std::io::Error),
    SerializationError(String),
    WithContext { context: String, source: Box<RuntimeError> },
    Other(String),
}

/// The rendered text of a `std::io::Error` (its `Display` output).
/// Nothing is stated of the text: it comes from the operating system.
#[verifier::external_body]
fn io_error_text(e: &std::io::Error) -> String {
    e.to_string()
}

/// True when the error chain holds no `IoError`, whose text is not modelled.
pub open spec fn text_is_known(e: RuntimeError) -> bool
    decreases e,
{
    match e {
        RuntimeError::IoError(_) => false,
        RuntimeError::WithContext { context, source } => text_is_known(*source),
        _ => true,
    }
}

/// The display text of an error whose chain holds no `IoError`.
pub open spec fn error_text(e: RuntimeError) -> Seq<char>
    decreases e,
{
    match e {
        RuntimeError::ComponentNotFound(n) => "Component not found: "@ + n@,
        RuntimeError::InvalidInput(c, m) => "Invalid input for component "@ + c@ + ": "@ + m@,
        RuntimeError::ProcessingError { component, event_id, reason } =>
            "Component "@ + component@ + " failed to process event "@ + event_id@ + ": "@ + reason@,
        RuntimeError::ConfigError(m) => "Configuration error: "@ + m@,
        RuntimeError::InitError(m) => "Initialization error: "@ + m@,
        RuntimeError::ChannelError(m) => "Channel error: "@ + m@,
        RuntimeError::IoError(_) => "IO error: "@,
        RuntimeError::SerializationError(m) => "Serialization error: "@ + m@,
        RuntimeError::WithContext { context, source } => context@ + ": "@ + error_text(*source),
        RuntimeError::Other(m) => "Runtime error: "@ + m@,
    }
}

/// Errors after which a retry could succeed: an I/O or channel failure,
/// also when it is wrapped in a context.
pub open spec fn temporary(e: RuntimeError) -> bool
    decreases e,
{
    match e {
        RuntimeError::IoError(_) | RuntimeError::ChannelError(_) => true,
        RuntimeError::WithContext { context, source } => temporary(*source),
        _ => false,
    }
}

/// Errors after which a retry cannot help: a configuration error, a missing
/// component or an invalid input, also when it is wrapped in a context.
pub open spec fn fatal(e: RuntimeError) -> bool
    decreases e,
{
    match e {
        RuntimeError::ConfigError(_) | RuntimeError::ComponentNotFound(_) | RuntimeError::InvalidInput(_, _) => true,
        RuntimeError::WithContext { context, source } => fatal(*source),
        _ => false,
    }
}

/// Configuration-related errors: a configuration error, also when it is
/// wrapped in a context.
pub open spec fn config_related(e: RuntimeError) -> bool
    decreases e,
{
    match e {
        RuntimeError::ConfigError(_) => true,
        RuntimeError::WithContext { context, source } => config_related(*source),
        _ => false,
    }
}

/// No error is both temporary and fatal, and every configuration error is fatal.
pub proof fn lemma_error_classes_disjoint(e: RuntimeError)
    ensures
        !(temporary(e) && fatal(e)),
        config_related(e) ==> fatal(e),
    decreases e,
{
    if let RuntimeError::WithContext { context, source } = e {
        lemma_error_classes_disjoint(*source);
    }
}

/// Adding a context to an error keeps whether a retry could help, and
/// its text is the context, `: `, then the text of the wrapped error.
pub proof fn lemma_context_keeps_error(e: RuntimeError, context: String)
    ensures
        temporary(RuntimeError::WithContext { context, source: Box::new(e) }) == temporary(e),
        fatal(RuntimeError::WithContext { context, source: Box::new(e) }) == fatal(e),
        config_related(RuntimeError::WithContext { context, source: Box::new(e) }) == config_related(e),
        text_is_known(RuntimeError::WithContext { context, source: Box::new(e) }) == text_is_known(e),
        error_text(RuntimeError::WithContext { context, source: Box::new(e) }) == context@ + ": "@ + error_text(e),
{
}

impl RuntimeError {
    pub fn component_not_found(name: String) -> (r: Self)
        ensures
            r == RuntimeError::ComponentNotFound(name),
    {
        RuntimeError::ComponentNotFound(name)
    }

    pub fn invalid_input(component: String, message: String) -> (r: Self)
        ensures
            r == RuntimeError::InvalidInput(component, message),
    {
        RuntimeError::InvalidInput(component, message)
    }

    pub fn processing_error(component: String, event_id: String, reason: String) -> (r: Self)
        ensures
            r == (RuntimeError::ProcessingError { component, event_id, reason }),
    {
        RuntimeError::ProcessingError { component, event_id, reason }
    }

    pub fn config_error(msg: String) -> (r: Self)
        ensures
            r == RuntimeError::ConfigError(msg),
    {
        RuntimeError::ConfigError(msg)
    }

    pub fn init_error(message: String) -> (r: Self)
        ensures
            r == RuntimeError::InitError(message),
    {
        RuntimeError::InitError(message)
    }

    pub fn channel_error(message: String) -> (r: Self)
        ensures
            r == RuntimeError::ChannelError(message),
    {
        RuntimeError::ChannelError(message)
    }

    /// Wraps this error under a context message.
    pub fn with_context(self, context: String) -> (r: Self)
        ensures
            r == (RuntimeError::WithContext { context, source: Box::new(self) }),
    {
        RuntimeError::WithContext { context, source: Box::new(self) }
    }

    /// True when retrying the failed operation could succeed.
    pub fn is_temporary(&self) -> (r: bool)
        ensures
            r == temporary(*self),
        decreases *self,
    {
        match self {
            RuntimeError::IoError(_) | RuntimeError::ChannelError(_) => true,
            RuntimeError::WithContext { context: _, source } => source.is_temporary(),
            _ => false,
        }
    }

    /// True when retrying would not help.
    pub fn is_fatal(&self) -> (r: bool)
        ensures
            r == fatal(*self),
        decreases *self,
    {
        match self {
            RuntimeError::ConfigError(_)
            | RuntimeError::ComponentNotFound(_)
            | RuntimeError::InvalidInput(_, _) => true,
            RuntimeError::WithContext { context: _, source } => source.is_fatal(),
            _ => false,
        }
    }

    /// True for configuration-related errors.
    pub fn is_config_error(&self) -> (r: bool)
        ensures
            r == config_related(*self),
        decreases *self,
    {
        match self {
            RuntimeError::ConfigError(_) => true,
            RuntimeError::WithContext { context: _, source } => source.is_config_error(),
            _ => false,
        }
    }

    /// The human-readable text of the error.
    pub fn message(&self) -> (r: String)
        ensures
            text_is_known(*self) ==> r@ == error_text(*self),
            !text_is_known(*self) ==> r@.len() >= error_text(*self).len()
                && r@.subrange(0, error_text(*self).len() as int) == error_text(*self),
        decreases *self,
    {
        match self {
            RuntimeError::ComponentNotFound(n) => {
                let mut s = String::from_str("Component not found: ");
                s.append(n.as_str());
                s
            },
            RuntimeError::InvalidInput(c, m) => {
                let mut s = String::from_str("Invalid input for component ");
                s.append(c.as_str());
                s.append(": ");
                s.append(m.as_str());
                s
            },
            RuntimeError::ProcessingError { component, event_id, reason } => {
                let mut s = String::from_str("Component ");
                s.append(component.as_str());
                s.append(" failed to process event ");
                s.append(event_id.as_str());
                s.append(": ");
                s.append(reason.as_str());
                s
            },
            RuntimeError::ConfigError(m) => {
                let mut s = String::from_str("Configuration error: ");
                s.append(m.as_str());
                s
            },
            RuntimeError::InitError(m) => {
                let mut s = String::from_str("Initialization error: ");
                s.append(m.as_str());
                s
            },
            RuntimeError::ChannelError(m) => {
                let mut s = String::from_str("Channel error: ");
                s.append(m.as_str());
                s
            },
            RuntimeError::IoError(e) => {
                let mut s = String::from_str("IO error: ");
                let t = io_error_text(e);
                s.append(t.as_str());
                s
            },
            RuntimeError::SerializationError(m) => {
                let mut s = String::from_str("Serialization error: ");
                s.append(m.as_str());
                s
            },
            RuntimeError::WithContext { context, source } => {
                let inner = source.message();
                let mut s = context.clone();
                s.append(": ");
                s.append(inner.as_str());
                s
            },
            RuntimeError::Other(m) => {
                let mut s = String::from_str("Runtime error: ");
                s.append(m.as_str());
                s
            },
        }
    }
}

impl From<std::io::Error> for RuntimeError {
    fn from(err: std::io::Error) -> (r: Self) {
        RuntimeError::IoError(err)
    }
}

impl vstd::std_specs::convert::FromSpecImpl<std::io::Error> for RuntimeError {
    open spec fn obeys_from_spec() -> bool {
        true
    }

    open spec fn from_spec(err: std::io::Error) -> Self {
        RuntimeError::IoError(err)
    }
}

} // verus!
