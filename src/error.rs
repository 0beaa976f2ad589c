use vstd::prelude::*;

verus! {

/// Which of the three packet markers could not be found.
#[derive(Debug, Clone, Copy, PartialEq, Eq, Structural)]
pub enum MissingMarker {
    /// `<?xpacket begin=`
    Begin,
    /// `<?xpacket end=`, searched from the begin marker on
    EndStart,
    /// `?>`, searched from the end marker on
    Closing,
}

/// The ways a load can fail.
#[derive(Debug, Clone, PartialEq, Eq)]
pub enum ErrorKind {
    /// The host file could not be read.
    IoError(String),
    /// One of the packet markers is absent.
    PacketNotFound(MissingMarker),
    /// The packet text is not well-formed XML.
    XmlParseError(String),
}

impl MissingMarker {
    /// A human-readable description of the missing marker.
    pub fn message(&self) -> (r: String)
        ensures
            *self == MissingMarker::Begin ==> r@ == "xpacket beginning marker not found!"@,
            *self == MissingMarker::EndStart ==> r@ == "xpacket end marker not found!"@,
            *self == MissingMarker::Closing ==> r@ == "xpacket end not found!"@,
    {
        match self {
            MissingMarker::Begin => "xpacket beginning marker not found!".to_owned(),
            MissingMarker::EndStart => "xpacket end marker not found!".to_owned(),
            MissingMarker::Closing => "xpacket end not found!".to_owned(),
        }
    }
}

} // verus!
