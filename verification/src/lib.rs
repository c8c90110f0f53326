//! A versioned layer store: the LSN-indexed layer map of a page server, the
//! life cycle of its layers, and the timeline tree of a tenant.

pub mod access_stats;
pub mod background;
pub mod branch;
pub mod creation;
pub mod deletion;
pub mod filename;
pub mod gc;
pub mod historic;
pub mod id;
pub mod inmem;
pub mod layer_desc;
pub mod layer_map;
pub mod load;
pub mod lsn;
pub mod metadata;
pub mod paths;
pub mod range;
pub mod read;
pub mod seqwait;
pub mod sim_time;
pub mod storage_layer;
pub mod tenant;
pub mod tenant_conf;
pub mod tenant_conf_file;
pub mod timeline;
pub mod tree_sort;
