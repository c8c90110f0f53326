//! What identifies a persistent layer: the rectangle of keys and LSNs that it
//! covers, its kind, and the size of its file.

use crate::id::TenantId;
use crate::id::TimelineId;
use crate::lsn::Key;
use crate::lsn::Lsn;
use std::ops::Range;
use vstd::prelude::*;

verus! {

/// The name of a delta layer file: its key range and its LSN range.
#[derive(Debug)]
pub struct DeltaFileName {
    pub key_range: Range<Key>,
    pub lsn_range: Range<Lsn>,
}

/// The name of an image layer file: its key range and its LSN.
#[derive(Debug)]
pub struct ImageFileName {
    pub key_range: Range<Key>,
    pub lsn: Lsn,
}

/// The name of a layer file, which is the identity of the layer locally and
/// in remote storage.
#[derive(Debug)]
pub enum LayerFileName {
    Image(ImageFileName),
    Delta(DeltaFileName),
}

impl Clone for DeltaFileName {
    fn clone(&self) -> (r: DeltaFileName)
        ensures
            r == *self,
    {
        DeltaFileName {
            key_range: self.key_range.start..self.key_range.end,
            lsn_range: self.lsn_range.start..self.lsn_range.end,
        }
    }
}

impl Clone for ImageFileName {
    fn clone(&self) -> (r: ImageFileName)
        ensures
            r == *self,
    {
        ImageFileName { key_range: self.key_range.start..self.key_range.end, lsn: self.lsn }
    }
}

impl Clone for LayerFileName {
    fn clone(&self) -> (r: LayerFileName)
        ensures
            r == *self,
    {
        match self {
            LayerFileName::Image(i) => LayerFileName::Image(i.clone()),
            LayerFileName::Delta(d) => LayerFileName::Delta(d.clone()),
        }
    }
}

impl Clone for PersistentLayerDesc {
    fn clone(&self) -> (r: PersistentLayerDesc)
        ensures
            r == *self,
    {
        PersistentLayerDesc {
            tenant_id: self.tenant_id,
            timeline_id: self.timeline_id,
            key_range: self.key_range.start..self.key_range.end,
            lsn_range: self.lsn_range.start..self.lsn_range.end,
            is_delta: self.is_delta,
            is_incremental: self.is_incremental,
            file_size: self.file_size,
        }
    }
}

/// The description of a persistent layer.
#[derive(Debug)]
pub struct PersistentLayerDesc {
    pub tenant_id: TenantId,
    pub timeline_id: TimelineId,
    pub key_range: Range<Key>,
    /// For an image layer, the one LSN of the image and the next.
    pub lsn_range: Range<Lsn>,
    pub is_delta: bool,
    /// Whether the layer holds only part of the data of its key range.
    pub is_incremental: bool,
    pub file_size: u64,
}

impl PersistentLayerDesc {
    /// The description of a delta layer, which is always incremental.
    pub fn new_delta(
        tenant_id: TenantId,
        timeline_id: TimelineId,
        key_range: Range<Key>,
        lsn_range: Range<Lsn>,
        file_size: u64,
    ) -> (d: PersistentLayerDesc)
        ensures
            d == (PersistentLayerDesc {
                tenant_id,
                timeline_id,
                key_range,
                lsn_range,
                is_delta: true,
                is_incremental: true,
                file_size,
            }),
    {
        PersistentLayerDesc {
            tenant_id,
            timeline_id,
            key_range,
            lsn_range,
            is_delta: true,
            is_incremental: true,
            file_size,
        }
    }

    /// The description of an image layer at `lsn`: its LSN range holds `lsn`
    /// alone.
    pub fn new_img(
        tenant_id: TenantId,
        timeline_id: TimelineId,
        key_range: Range<Key>,
        lsn: Lsn,
        is_incremental: bool,
        file_size: u64,
    ) -> (d: PersistentLayerDesc)
        requires
            lsn.0 < u64::MAX,
        ensures
            d == (PersistentLayerDesc {
                tenant_id,
                timeline_id,
                key_range,
                lsn_range: lsn..Lsn((lsn.0 + 1) as u64),
                is_delta: false,
                is_incremental,
                file_size,
            }),
    {
        PersistentLayerDesc {
            tenant_id,
            timeline_id,
            key_range,
            lsn_range: lsn..Lsn(lsn.0 + 1),
            is_delta: false,
            is_incremental,
            file_size,
        }
    }

    /// The LSN of an image layer.
    pub fn image_layer_lsn(&self) -> (lsn: Lsn)
        requires
            !self.is_delta,
        ensures
            lsn == self.lsn_range.start,
    {
        self.lsn_range.start
    }

    /// The name of the file of the layer.
    pub fn filename(&self) -> (name: LayerFileName)
        ensures
            name == self.filename_spec(),
    {
        if self.is_delta {
            LayerFileName::Delta(
                DeltaFileName {
                    key_range: self.key_range.start..self.key_range.end,
                    lsn_range: self.lsn_range.start..self.lsn_range.end,
                },
            )
        } else {
            LayerFileName::Image(
                ImageFileName {
                    key_range: self.key_range.start..self.key_range.end,
                    lsn: self.lsn_range.start,
                },
            )
        }
    }

    /// The name of the file of the layer.
    pub open spec fn filename_spec(&self) -> LayerFileName {
        if self.is_delta {
            LayerFileName::Delta(
                DeltaFileName { key_range: self.key_range, lsn_range: self.lsn_range },
            )
        } else {
            LayerFileName::Image(
                ImageFileName { key_range: self.key_range, lsn: self.lsn_range.start },
            )
        }
    }
}

/// The description that a file name and a file size stand for. An image layer
/// made from its name counts as incremental.
pub open spec fn make_desc_spec(
    tenant_id: TenantId,
    timeline_id: TimelineId,
    filename: LayerFileName,
    file_size: u64,
) -> PersistentLayerDesc {
    match filename {
        LayerFileName::Image(i) => PersistentLayerDesc {
            tenant_id,
            timeline_id,
            key_range: i.key_range,
            lsn_range: i.lsn..Lsn((i.lsn.0 + 1) as u64),
            is_delta: false,
            is_incremental: true,
            file_size,
        },
        LayerFileName::Delta(d) => PersistentLayerDesc {
            tenant_id,
            timeline_id,
            key_range: d.key_range,
            lsn_range: d.lsn_range,
            is_delta: true,
            is_incremental: true,
            file_size,
        },
    }
}

/// The LSN of the image that `filename` names is not the last LSN there is.
pub open spec fn name_in_range(filename: LayerFileName) -> bool {
    match filename {
        LayerFileName::Image(i) => i.lsn.0 < u64::MAX,
        LayerFileName::Delta(_) => true,
    }
}

/// The description of the layer whose file is named `filename` and has
/// `file_size` bytes.
pub fn make_desc(
    tenant_id: TenantId,
    timeline_id: TimelineId,
    filename: &LayerFileName,
    file_size: u64,
) -> (d: PersistentLayerDesc)
    requires
        name_in_range(*filename),
    ensures
        d == make_desc_spec(tenant_id, timeline_id, *filename, file_size),
{
    match filename {
        LayerFileName::Image(i) => PersistentLayerDesc::new_img(
            tenant_id,
            timeline_id,
            i.key_range.start..i.key_range.end,
            i.lsn,
            true,
            file_size,
        ),
        LayerFileName::Delta(d) => PersistentLayerDesc::new_delta(
            tenant_id,
            timeline_id,
            d.key_range.start..d.key_range.end,
            d.lsn_range.start..d.lsn_range.end,
            file_size,
        ),
    }
}

/// A description made from a name gives that name back.
pub proof fn lemma_name_round_trip(
    tenant_id: TenantId,
    timeline_id: TimelineId,
    filename: LayerFileName,
    file_size: u64,
)
    ensures
        make_desc_spec(tenant_id, timeline_id, filename, file_size).filename_spec() == filename,
{
}

} // verus!
