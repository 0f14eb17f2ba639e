pub mod arith;
pub mod basics;
pub mod convert;
pub mod deque;
pub mod index;
pub mod listops;
pub mod lists;
pub mod sort;
pub mod units;

pub use crate::arith::{
    morloc_abs, morloc_add, morloc_div, morloc_int_div, morloc_int_mod, morloc_mul,
    morloc_neg, morloc_pow, morloc_sub, MorlocNum, MorlocPow,
};
pub use crate::basics::{morloc_and, morloc_eq, morloc_id, morloc_le, morloc_not, morloc_or};
pub use crate::convert::{
    morloc_into_i16, morloc_into_i32, morloc_into_i64, morloc_into_int, morloc_into_u16, morloc_into_u32,
    morloc_into_u64, morloc_size, morloc_to_index, morloc_try_i16, morloc_try_i32, morloc_try_i64, morloc_try_i8,
    morloc_try_int, morloc_try_u16, morloc_try_u32, morloc_try_u64, morloc_try_u8, MorlocInto, MorlocLen,
    MorlocToIndex, MorlocTryTo,
};
pub use crate::deque::{
    morloc_cons_deque, morloc_deque_add, morloc_fold1_deque, morloc_fold_deque, morloc_map_deque,
    morloc_pack_deque, morloc_safe_fold1_deque, morloc_snoc_deque, morloc_uncons_deque, morloc_unpack_deque,
    morloc_unsnoc_deque,
};
pub use crate::index::{morloc_at, morloc_slice};
pub use crate::listops::{
    morloc_dropWhile, morloc_enumerate, morloc_filter, morloc_find, morloc_groupBy, morloc_intersperse,
    morloc_iterate, morloc_partition, morloc_range, morloc_rangeStep, morloc_replicate, morloc_scanl,
    morloc_takeWhile, morloc_unique, morloc_unzip, morloc_zipWith,
};
pub use crate::lists::{
    morloc_cons_vec, morloc_fold1_vec, morloc_fold_vec, morloc_list_add, morloc_map_vec, morloc_safe_fold1_vec,
    morloc_snoc_vec, morloc_str_add, morloc_uncons_vec, morloc_unsnoc_vec,
};
pub use crate::sort::{morloc_groupSort, morloc_merge_sort_by, morloc_sort, morloc_sortBy};
pub use crate::units::{morloc_pack_unit, morloc_unpack_unit};
