//! Factory method: a process leaves it to its implementations which helper
//! it works with.

use vstd::prelude::*;
use vstd::string::StringExecFns;

verus! {

/// The part of a process that differs from case to case.
pub trait Supplier {
    /// What `send` reports.
    spec fn send_spec(&self) -> Seq<char>;

    /// Sends, and reports it.
    fn send(&self) -> (report: String)
        ensures
            report@ == self.send_spec(),
    ;
}

/// A process that leaves the making of its supplier to its implementations.
pub trait Processor {
    type SupplierImpl: Supplier;

    /// The supplier that `get_supplier` makes.
    spec fn supplier_spec(&self) -> Self::SupplierImpl;

    /// Makes the supplier.
    fn get_supplier(&self) -> (supplier: Self::SupplierImpl)
        ensures
            supplier == self.supplier_spec(),
    ;

    /// The whole process: what the supplier reports, between start and end.
    fn run(&self) -> (report: String)
        ensures
            report@ == "process start, "@ + self.supplier_spec().send_spec() + ", process end"@,
    {
        let supplier = self.get_supplier();
        let mut report = String::from_str("process start, ");
        report.append(supplier.send().as_str());
        report.append(", process end");
        report
    }
}

/// The supplier Sagawa.
pub struct SagawaSupplier {
    name: String,
}

impl Clone for SagawaSupplier {
    fn clone(&self) -> (supplier: Self)
        ensures
            supplier == *self,
    {
        SagawaSupplier { name: self.name.clone() }
    }
}

impl SagawaSupplier {
    /// The name under which the supplier reports.
    pub closed spec fn name(&self) -> Seq<char> {
        self.name@
    }
}

impl Supplier for SagawaSupplier {
    open spec fn send_spec(&self) -> Seq<char> {
        self.name() + " sent"@
    }

    fn send(&self) -> (report: String) {
        let mut report = self.name.clone();
        report.append(" sent");
        report
    }
}

/// The process that works with Sagawa.
pub struct SagawaProcessor {
    supplier: SagawaSupplier,
}

impl SagawaProcessor {
    /// The process, with its supplier named `sagawa`.
    pub fn new() -> (processor: Self)
        ensures
            processor.supplier_spec().name() == "sagawa"@,
    {
        Self { supplier: SagawaSupplier { name: String::from_str("sagawa") } }
    }
}

impl Processor for SagawaProcessor {
    type SupplierImpl = SagawaSupplier;

    closed spec fn supplier_spec(&self) -> SagawaSupplier {
        self.supplier
    }

    fn get_supplier(&self) -> (supplier: SagawaSupplier) {
        self.supplier.clone()
    }
}

} // verus!
