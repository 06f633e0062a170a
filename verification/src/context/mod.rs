pub mod area_index;
