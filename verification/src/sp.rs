//! The TSPA storage provider.

use vstd::prelude::*;

use crate::group::{multiply_point, point_decodes, point_mul};
use crate::messages::Key;
use crate::provider::evaluates;
use crate::scalar::scalar_value;
use crate::table::Table;

verus! {

/// The state of a TSPA storage provider.
pub struct TspaProvider {
    pub sp_id: u32,
    /// The provider's OPRF key.
    pub oprf_key: Key,
    /// Stored ciphertexts by record address.
    pub record_db: Table<Key, [u8; 48]>,
}

/// Model of [`TspaProvider`].
pub struct TspaProviderModel {
    pub sp_id: u32,
    pub oprf_key: Seq<u8>,
    pub record_db: Map<Seq<u8>, Seq<u8>>,
}

impl View for TspaProvider {
    type V = TspaProviderModel;

    open spec fn view(&self) -> TspaProviderModel {
        TspaProviderModel {
            sp_id: self.sp_id,
            oprf_key: self.oprf_key@,
            record_db: self.record_db@,
        }
    }
}

impl Clone for TspaProvider {
    fn clone(&self) -> (copy: Self)
        ensures
            copy@ == self@,
    {
        TspaProvider {
            sp_id: self.sp_id,
            oprf_key: self.oprf_key,
            record_db: self.record_db.clone(),
        }
    }
}

impl TspaProvider {
    /// A provider without records.
    pub fn new(sp_id: u32, oprf_key: Key) -> (provider: Self)
        ensures
            provider@ == (TspaProviderModel {
                sp_id,
                oprf_key: oprf_key@,
                record_db: Map::empty(),
            }),
    {
        TspaProvider { sp_id, oprf_key, record_db: Table::new() }
    }

    /// OPRF sender evaluation: the blinded group element times the provider's key.
    pub fn oprf_send_eval(&self, blinded_bytes: &Key) -> (contribution: Key)
        requires
            point_decodes(blinded_bytes@),
        ensures
            contribution@ == point_mul(blinded_bytes@, scalar_value(self@.oprf_key)),
            evaluates(contribution@, blinded_bytes@, scalar_value(self@.oprf_key)),
    {
        match multiply_point(blinded_bytes, &self.oprf_key) {
            Some(contribution) => contribution,
            None => {
                assert(false);
                *blinded_bytes
            },
        }
    }

    /// Stores a record, replacing what was stored at its address.
    pub fn put_record(&mut self, stor_uid: Key, ciphertext: [u8; 48])
        ensures
            final(self)@ == (TspaProviderModel {
                record_db: old(self)@.record_db.insert(stor_uid@, ciphertext@),
                ..old(self)@
            }),
    {
        self.record_db.insert(stor_uid, ciphertext);
    }

    /// The record at an address.
    pub fn get_record(&self, stor_uid: &Key) -> (ciphertext: Option<[u8; 48]>)
        ensures
            match ciphertext {
                Some(bytes) => self@.record_db.contains_pair(stor_uid@, bytes@),
                None => !self@.record_db.contains_key(stor_uid@),
            },
    {
        match self.record_db.get(stor_uid) {
            Some(ciphertext) => Some(*ciphertext),
            None => None,
        }
    }
}

} // verus!
