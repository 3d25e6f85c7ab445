use rust_design_pattern::creational_patterns::factory_method::{
    Processor, SagawaProcessor, Supplier,
};

#[test]
fn factory_method_case1() {
    let sut = SagawaProcessor::new();
    assert_eq!(sut.run(), "process start, sagawa sent, process end");
}

#[test]
fn the_supplier_reports_its_name() {
    let sut = SagawaProcessor::new();
    assert_eq!(sut.get_supplier().send(), "sagawa sent");
    assert_eq!(sut.get_supplier().clone().send(), "sagawa sent");
}
