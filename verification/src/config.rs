//! The job record handed to the external simulator: one characterization
//! task over a group of cells at one corner.
//!
//! Voltage and temperature are exact fixed-point integers in thousandths,
//! so the record stays a plain value; the serialization layer converts.

use vstd::prelude::*;

verus! {

/// One simulation task: named corner, electrical point, file locations,
/// sampling setup and the cells it covers. `voltage_mv` is millivolts;
/// `temperature_mc` is millidegrees Celsius.
#[derive(Clone, Debug, PartialEq)]
pub struct Config {
    pub name: String,
    pub voltage_mv: i64,
    pub temperature_mc: i64,
    pub lib_file_path: String,
    pub net_list_path: String,
    pub model_path: String,
    pub model_section: String,
    pub lvf_type: String,
    pub lvf_sampling_num: usize,
    pub num_cpu: usize,
    pub hspice_path: String,
    pub cell_name_list: Vec<String>,
}

impl Config {
    /// Adds one cell to the task.
    pub fn push_cell(&mut self, cell: String)
        ensures
            final(self).cell_name_list@ == old(self).cell_name_list@.push(cell),
            final(self).name == old(self).name,
            final(self).voltage_mv == old(self).voltage_mv,
            final(self).temperature_mc == old(self).temperature_mc,
            final(self).lib_file_path == old(self).lib_file_path,
            final(self).net_list_path == old(self).net_list_path,
            final(self).model_path == old(self).model_path,
            final(self).model_section == old(self).model_section,
            final(self).lvf_type == old(self).lvf_type,
            final(self).lvf_sampling_num == old(self).lvf_sampling_num,
            final(self).num_cpu == old(self).num_cpu,
            final(self).hspice_path == old(self).hspice_path,
    {
        self.cell_name_list.push(cell)
    }

    /// Adds one cell and grows the task's processor budget by one: how a
    /// task accumulates work that is still outstanding.
    pub fn add_cell(&mut self, cell: String)
        requires
            old(self).num_cpu < usize::MAX,
        ensures
            final(self).cell_name_list@ == old(self).cell_name_list@.push(cell),
            final(self).num_cpu == old(self).num_cpu + 1,
            final(self).name == old(self).name,
            final(self).voltage_mv == old(self).voltage_mv,
            final(self).temperature_mc == old(self).temperature_mc,
            final(self).lib_file_path == old(self).lib_file_path,
            final(self).net_list_path == old(self).net_list_path,
            final(self).model_path == old(self).model_path,
            final(self).model_section == old(self).model_section,
            final(self).lvf_type == old(self).lvf_type,
            final(self).lvf_sampling_num == old(self).lvf_sampling_num,
            final(self).hspice_path == old(self).hspice_path,
    {
        self.cell_name_list.push(cell);
        self.num_cpu = self.num_cpu + 1;
    }
}

} // verus!
