//! Strategy: the way in which a notice is sent can be exchanged.

use vstd::prelude::*;
use vstd::string::StringExecFns;

verus! {

/// A way of sending a notice.
pub trait Noticer {
    /// The record of sending `message`.
    spec fn notice_spec(&self, message: Seq<char>) -> Seq<char>;

    /// Sends `message` and gives the record of it.
    fn notice(&self, message: &str) -> (record: String)
        ensures
            record@ == self.notice_spec(message@),
    ;
}

/// Notice by mail.
pub struct Mail {
    pub address: String,
    pub subject: String,
}

impl Noticer for Mail {
    open spec fn notice_spec(&self, message: Seq<char>) -> Seq<char> {
        "Sent Mail to "@ + self.address@ + " ( "@ + self.subject@ + " ) [ message = "@ + message
            + " ]"@
    }

    fn notice(&self, message: &str) -> (record: String) {
        let mut record = String::from_str("Sent Mail to ");
        record.append(self.address.as_str());
        record.append(" ( ");
        record.append(self.subject.as_str());
        record.append(" ) [ message = ");
        record.append(message);
        record.append(" ]");
        record
    }
}

/// Notice by short message.
pub struct SMS {
    pub number: String,
}

impl Noticer for SMS {
    open spec fn notice_spec(&self, message: Seq<char>) -> Seq<char> {
        "Sent SMS to "@ + self.number@ + " [ message = "@ + message + " ]"@
    }

    fn notice(&self, message: &str) -> (record: String) {
        let mut record = String::from_str("Sent SMS to ");
        record.append(self.number.as_str());
        record.append(" [ message = ");
        record.append(message);
        record.append(" ]");
        record
    }
}

/// A report, which does not know by which way its notices go.
pub struct Report<T: Noticer> {
    noticer: T,
}

impl<T: Noticer> Report<T> {
    /// A report that sends its notices by `noticer`.
    pub fn new(noticer: T) -> (report: Self)
        ensures
            report.noticer() == noticer,
    {
        Self { noticer }
    }

    /// The way by which the notices go.
    pub closed spec fn noticer(&self) -> T {
        self.noticer
    }

    /// Sends `message` by the report's noticer and gives the record of it.
    pub fn notice(&self, message: &str) -> (record: String)
        ensures
            record@ == self.noticer().notice_spec(message@),
    {
        self.noticer.notice(message)
    }
}

} // verus!
