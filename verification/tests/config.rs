use ocv_patch::config::Config;

fn base_config() -> Config {
    Config {
        name: "AN2_10k_QMC_tt0p8v25c".to_string(),
        voltage_mv: 800,
        temperature_mc: 25_000,
        lib_file_path: "/template/AN2.lib".to_string(),
        net_list_path: "/tech/cells.spi".to_string(),
        model_path: "/tech/models.l".to_string(),
        model_section: "TTGlobalCorner_LocalMC_MOS_MOSCAP".to_string(),
        lvf_type: "QmcSample".to_string(),
        lvf_sampling_num: 10_000,
        num_cpu: 1,
        hspice_path: "/tools/hspice".to_string(),
        cell_name_list: vec!["AN2D0".to_string()],
    }
}

#[test]
fn push_cell_appends() {
    let mut c = base_config();
    c.push_cell("AN2D1".to_string());
    assert_eq!(c.cell_name_list, vec!["AN2D0".to_string(), "AN2D1".to_string()]);
    assert_eq!(c.num_cpu, 1);
}

#[test]
fn add_cell_grows_budget() {
    let mut c = base_config();
    c.add_cell("AN2D1".to_string());
    c.add_cell("AN2D2".to_string());
    assert_eq!(c.num_cpu, 3);
    assert_eq!(c.cell_name_list.len(), 3);
}
