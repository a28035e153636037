pub mod str_utils;
