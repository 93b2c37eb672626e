use marco_planet::application::{WindowToShow, WindowsOpened};
use marco_planet::message::Message;
use marco_planet::stage::CalculationStage;

#[test]
fn stage_labels() {
    assert_eq!(CalculationStage::Start.as_ref(), "Just started calculation");
    assert_eq!(CalculationStage::Points.as_ref(), "Generating points");
    assert_eq!(CalculationStage::Plots.label(), "Generating plots");
    assert_eq!(CalculationStage::End.label(), "Ended calculations");
}

#[test]
fn windows_start_closed() {
    assert!(!WindowsOpened::default().settings);
    assert_ne!(WindowToShow::LatitudeVsTimeGraph, WindowToShow::LongitudeVsTimeGraph);
}

#[test]
fn messages_carry_stage_or_point() {
    let m: Message<(u64, usize)> = Message::NewPoint((3, 1));
    match m.clone() {
        Message::NewPoint(p) => assert_eq!(p, (3, 1)),
        Message::NewStage(_) => panic!("expected a point"),
    }
    let s: Message<(u64, usize)> = Message::NewStage(CalculationStage::Points);
    assert!(matches!(s, Message::NewStage(CalculationStage::Points)));
}
