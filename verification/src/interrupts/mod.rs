pub mod interrupt_list;
pub mod interrupts_cli;
pub mod svd_reader;
