//! Tests of the parts catalog, one per cataloged family.  Quantities are the
//! library's exact integer units: milliohms, picofarads, millivolts,
//! milliamperes, basis points and parts per million.

use rust_hdl::pcb::{
    make_avx_capacitor, make_kemet_ceramic_capacitor, make_kemet_t491_capacitor,
    make_lt3092_current_source, make_mcp_1799_regulator, make_murata_capacitor,
    make_on_semi_ncv33375_regulator, make_tdk_c_series_capacitor, make_tdk_cga_capacitor,
    make_ti_tps_7b84_regulator, make_wurth_led, make_yageo_series_resistor,
    make_zldo1117g_regulator, CapacitorKind, CapacitorTolerance, DielectricCode, DiodeKind,
    PassiveKind, PinKind, SignalKind, SizeCode,
};

#[test]
fn test_yageo_precision() {
    let precise = make_yageo_series_resistor("RL0603FR-070R47L").unwrap();
    // 'Res Thick Film 0603 0.47 Ohm 1% 0.1W(1/10W) ±800ppm/C Molded SMD Paper T/R
    assert_eq!(precise.details.size, Some(SizeCode::I0603));
    assert_eq!(precise.tolerance_bp, 100);
    assert_eq!(precise.value_milliohms, 470);
}

#[test]
fn test_yageo_tempco() {
    let temp = make_yageo_series_resistor("AT0603BRD0720KL").unwrap();
    // '20K 0.1% precision
    assert_eq!(temp.tolerance_bp, 10);
    assert_eq!(temp.value_milliohms, 20_000_000);
    assert_eq!(temp.tempco_ppm, Some(25));
}

#[test]
fn test_avx() {
    let avx = make_avx_capacitor("22201C475KAT2A").unwrap();
    assert_eq!(avx.details.size, Some(SizeCode::I2220));
    assert_eq!(
        avx.kind,
        CapacitorKind::MultiLayerChip(DielectricCode::X7R)
    );
    assert_eq!(avx.value_pf, 4_700_000);
    assert_eq!(avx.tolerance, CapacitorTolerance::TenPercent);
}

#[test]
fn test_kemet() {
    let c = make_kemet_ceramic_capacitor("C0603C104K5RACTU").unwrap();
    assert_eq!(c.details.size, Some(SizeCode::I0603));
    assert_eq!(c.kind, CapacitorKind::MultiLayerChip(DielectricCode::X7R));
    assert_eq!(c.value_pf, 100_000);
    assert_eq!(c.tolerance, CapacitorTolerance::TenPercent);
}

#[test]
fn test_green_led() {
    let d = make_wurth_led("150060GS75000").unwrap();
    assert_eq!(d.kind, DiodeKind::Led("Green".to_string()));
    assert_eq!(d.forward_drop_mv, 3200);
    assert_eq!(d.details.pins.len(), 2);
    assert_eq!(
        d.details.pins[0].kind,
        PinKind::Passive(PassiveKind::Negative)
    );
    assert_eq!(
        d.details.pins[1].kind,
        PinKind::Passive(PassiveKind::Positive)
    );
}

#[test]
fn test_zldo_regulator() {
    let v = make_zldo1117g_regulator("ZLDO1117G50TA").unwrap();
    assert_eq!(v.input_max_voltage_mv, 18_000);
    assert_eq!(v.output_nominal_voltage_mv, 5_000);
    assert_eq!(v.details.pins.len(), 4);
    assert_eq!(v.details.pins[0].kind, PinKind::PowerReturn);
    assert_eq!(v.details.pins[1].kind, PinKind::PowerSource);
    assert_eq!(v.details.pins[2].kind, PinKind::PowerSink);
    assert_eq!(v.details.pins[3].kind, PinKind::PowerSource);
    let v = make_zldo1117g_regulator("ZLDO1117G33TA").unwrap();
    assert_eq!(v.input_max_voltage_mv, 18_000);
    assert_eq!(v.output_nominal_voltage_mv, 3_300);
    assert_eq!(v.details.pins.len(), 4);
    assert_eq!(v.details.pins[0].kind, PinKind::PowerReturn);
    assert_eq!(v.details.pins[1].kind, PinKind::PowerSource);
    assert_eq!(v.details.pins[2].kind, PinKind::PowerSink);
    assert_eq!(v.details.pins[3].kind, PinKind::PowerSource);
}

#[test]
fn test_ti_tps_regulator() {
    let v = make_ti_tps_7b84_regulator("TPS7B8450QDCYRQ1").unwrap();
    assert_eq!(v.input_max_voltage_mv, 42_000);
    assert_eq!(v.output_nominal_voltage_mv, 5_000);
    assert_eq!(v.output_max_current_ma, 150);
    assert_eq!(v.details.pins[0].kind, PinKind::PowerSink);
    assert_eq!(v.details.pins[0].name, "IN");
    assert_eq!(v.details.pins[1].kind, PinKind::Input(SignalKind::Any));
    assert_eq!(v.details.pins[1].name, "EN");
    assert_eq!(v.details.pins[2].kind, PinKind::PowerSource);
    assert_eq!(v.details.pins[2].name, "OUT");
    assert_eq!(v.details.pins[3].kind, PinKind::PowerReturn);
    assert_eq!(v.details.pins[3].name, "GND");
    let v = make_ti_tps_7b84_regulator("TPS7B8433QDCYRQ1").unwrap();
    assert_eq!(v.input_max_voltage_mv, 42_000);
    assert_eq!(v.output_nominal_voltage_mv, 3_300);
    assert_eq!(v.output_max_current_ma, 150);
    assert_eq!(v.details.pins[0].kind, PinKind::PowerSink);
    assert_eq!(v.details.pins[0].name, "IN");
    assert_eq!(v.details.pins[1].kind, PinKind::Input(SignalKind::Any));
    assert_eq!(v.details.pins[1].name, "EN");
    assert_eq!(v.details.pins[2].kind, PinKind::PowerSource);
    assert_eq!(v.details.pins[2].name, "OUT");
    assert_eq!(v.details.pins[3].kind, PinKind::PowerReturn);
    assert_eq!(v.details.pins[3].name, "GND");
}

#[test]
fn test_on_semi_regulators() {
    let v = make_on_semi_ncv33375_regulator("NCV33375ST3.3T3G").unwrap();
    assert_eq!(v.input_max_voltage_mv, 13_000);
    assert_eq!(v.output_nominal_voltage_mv, 3_300);
    assert_eq!(v.output_max_current_ma, 300);
    assert_eq!(v.details.pins[0].kind, PinKind::PowerSink);
    assert_eq!(v.details.pins[0].name, "VIN");
    assert_eq!(v.details.pins[1].kind, PinKind::Input(SignalKind::Any));
    assert_eq!(v.details.pins[1].name, "ON/OFF");
    assert_eq!(v.details.pins[2].kind, PinKind::PowerSource);
    assert_eq!(v.details.pins[2].name, "VOUT");
    assert_eq!(v.details.pins[3].kind, PinKind::PowerReturn);
    assert_eq!(v.details.pins[3].name, "GND");
    let v = make_on_semi_ncv33375_regulator("NCV33375ST1.8T3G").unwrap();
    assert_eq!(v.input_max_voltage_mv, 13_000);
    assert_eq!(v.output_nominal_voltage_mv, 1_800);
    assert_eq!(v.output_max_current_ma, 300);
    assert_eq!(v.details.pins[0].kind, PinKind::PowerSink);
    assert_eq!(v.details.pins[0].name, "VIN");
    assert_eq!(v.details.pins[1].kind, PinKind::Input(SignalKind::Any));
    assert_eq!(v.details.pins[1].name, "ON/OFF");
    assert_eq!(v.details.pins[2].kind, PinKind::PowerSource);
    assert_eq!(v.details.pins[2].name, "VOUT");
    assert_eq!(v.details.pins[3].kind, PinKind::PowerReturn);
    assert_eq!(v.details.pins[3].name, "GND");
}

#[test]
fn test_microchip_regulators() {
    let v = make_mcp_1799_regulator("MCP1799T-5002H/DB").unwrap();
    assert_eq!(v.input_max_voltage_mv, 45_000);
    assert_eq!(v.output_nominal_voltage_mv, 5_000);
    assert_eq!(v.output_max_current_ma, 80);
    assert_eq!(v.details.pins[0].kind, PinKind::PowerSink);
    assert_eq!(v.details.pins[0].name, "VIN");
    assert_eq!(v.details.pins[1].kind, PinKind::PowerReturn);
    assert_eq!(v.details.pins[1].name, "GND_1");
    assert_eq!(v.details.pins[2].kind, PinKind::PowerSource);
    assert_eq!(v.details.pins[2].name, "VOUT");
    assert_eq!(v.details.pins[3].kind, PinKind::PowerReturn);
    assert_eq!(v.details.pins[3].name, "GND_2");
    let v = make_mcp_1799_regulator("MCP1799T-3302H/DB").unwrap();
    assert_eq!(v.input_max_voltage_mv, 45_000);
    assert_eq!(v.output_nominal_voltage_mv, 3_300);
    assert_eq!(v.output_max_current_ma, 80);
    assert_eq!(v.details.pins[0].kind, PinKind::PowerSink);
    assert_eq!(v.details.pins[0].name, "VIN");
    assert_eq!(v.details.pins[1].kind, PinKind::PowerReturn);
    assert_eq!(v.details.pins[1].name, "GND_1");
    assert_eq!(v.details.pins[2].kind, PinKind::PowerSource);
    assert_eq!(v.details.pins[2].name, "VOUT");
    assert_eq!(v.details.pins[3].kind, PinKind::PowerReturn);
    assert_eq!(v.details.pins[3].name, "GND_2");
}

#[test]
fn test_lt3092() {
    let u = make_lt3092_current_source("LT3092EST#PBF").unwrap();
    assert_eq!(u.pins.len(), 4);
    assert_eq!(u.pins[0].kind, PinKind::Input(SignalKind::Any));
    assert_eq!(u.pins[0].name, "SET");
    assert_eq!(u.pins[1].kind, PinKind::PowerSource);
    assert_eq!(u.pins[1].name, "OUT_1");
    assert_eq!(u.pins[2].kind, PinKind::PowerSink);
    assert_eq!(u.pins[2].name, "IN");
    assert_eq!(u.pins[3].kind, PinKind::PowerSource);
    assert_eq!(u.pins[3].name, "OUT_2");
}

#[test]
fn malformed_part_numbers_are_rejected() {
    assert!(make_yageo_series_resistor("XX").is_none());
    assert!(make_kemet_ceramic_capacitor("C9999C104K5R").is_none());
    assert!(make_zldo1117g_regulator("ZLDO1117GXXTA").is_none());
    assert!(make_wurth_led("999999G").is_none());
    assert!(make_lt3092_current_source("LM317").is_none());
}

#[test]
fn test_tdk_cga_cap() {
    let filter_cap = make_tdk_cga_capacitor("CGA4J2X7R2A104K125AA").unwrap();
    // 'TDK CGA4J2X7R2A104K125AA SMD Multilayer Ceramic Capacitor, 0805
    // [2012 Metric], 0.1 uF, 100 V, 10%, X7R, CGA Series
    assert_eq!(filter_cap.details.manufacturer.name, "TDK");
    assert_eq!(
        filter_cap.kind,
        CapacitorKind::MultiLayerChip(DielectricCode::X7R)
    );
    assert_eq!(filter_cap.details.size, Some(SizeCode::I0805));
    assert_eq!(filter_cap.value_pf, 100_000);
    assert_eq!(filter_cap.voltage_mv, 100_000);
}

#[test]
fn test_kemet_tantalum_cap() {
    let kemet = make_kemet_t491_capacitor("T491A106K010AT").unwrap();
    assert_eq!(kemet.details.size, Some(SizeCode::I1206));
    assert_eq!(kemet.kind, CapacitorKind::Tantalum);
    assert_eq!(kemet.value_pf, 10_000_000);
    assert_eq!(kemet.voltage_mv, 10_000);
    assert_eq!(kemet.tolerance, CapacitorTolerance::TenPercent);
}

#[test]
fn test_tdk_c_series() {
    let c = make_tdk_c_series_capacitor("C1608X7R1C105K080AC").unwrap();
    assert_eq!(c.details.size, Some(SizeCode::I0603));
    assert_eq!(c.kind, CapacitorKind::MultiLayerChip(DielectricCode::X7R));
    assert_eq!(c.value_pf, 1_000_000);
    assert_eq!(c.tolerance, CapacitorTolerance::TenPercent);
    assert_eq!(c.voltage_mv, 16_000);
}

#[test]
fn test_murata_grt_series() {
    let c = make_murata_capacitor("GRT188R61H105KE13D").unwrap();
    // 'Multilayer Ceramic Capacitors MLCC - SMD/SMT 0603 50Vdc 1.0uF X5R 10%
    assert_eq!(c.details.size, Some(SizeCode::I0603));
    assert_eq!(c.tolerance, CapacitorTolerance::TenPercent);
    assert_eq!(c.voltage_mv, 50_000);
    assert_eq!(c.kind, CapacitorKind::MultiLayerChip(DielectricCode::X5R));
    assert_eq!(c.value_pf, 1_000_000);
}

#[test]
fn test_murata_grm_series() {
    let c = make_murata_capacitor("GRM21BR61C226ME44L").unwrap();
    // '0805 22 uF 16 V 20% Tolerance X5R Multilayer Ceramic Chip Capacitor
    assert_eq!(c.details.size, Some(SizeCode::I0805));
    assert_eq!(c.voltage_mv, 16_000);
    assert_eq!(c.tolerance, CapacitorTolerance::TwentyPercent);
    assert_eq!(c.kind, CapacitorKind::MultiLayerChip(DielectricCode::X5R));
    assert_eq!(c.value_pf, 22_000_000);
}
