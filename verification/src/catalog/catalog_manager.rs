//! The three catalogs together.

use crate::catalog::catalog::RecordManeger;
use crate::catalog::mini_attribute::MiniAttributeRecord;
use crate::catalog::mini_class::MiniClassRecord;
use crate::catalog::mini_database::MiniDatabaseRecord;
use vstd::prelude::*;

verus! {

/// The catalogs of databases, of tables and of columns.
pub struct CatalogManager {
    pub database_rm: RecordManeger<MiniDatabaseRecord>,
    pub class_rm: RecordManeger<MiniClassRecord>,
    pub attribute_rm: RecordManeger<MiniAttributeRecord>,
}

impl CatalogManager {
    /// The catalogs that the texts of the three catalog files stand for.
    /// Fails with the message of the first catalog, in the order databases,
    /// tables, columns, that has a line that stands for no record.
    pub fn new(database_text: &str, class_text: &str, attribute_text: &str) -> (r: Result<
        CatalogManager,
        String,
    >)
        ensures
            r is Ok <==> RecordManeger::<MiniDatabaseRecord>::spec_reads(database_text@)
                && RecordManeger::<MiniClassRecord>::spec_reads(class_text@) && RecordManeger::<
                MiniAttributeRecord,
            >::spec_reads(attribute_text@),
            r matches Ok(cm) ==> {
                &&& RecordManeger::<MiniDatabaseRecord>::spec_built_from(
                    Ok(cm.database_rm),
                    "mini_database"@,
                    database_text@,
                )
                &&& RecordManeger::<MiniClassRecord>::spec_built_from(
                    Ok(cm.class_rm),
                    "mini_class"@,
                    class_text@,
                )
                &&& RecordManeger::<MiniAttributeRecord>::spec_built_from(
                    Ok(cm.attribute_rm),
                    "mini_attribute"@,
                    attribute_text@,
                )
            },
            r matches Err(msg) ==> {
                if !RecordManeger::<MiniDatabaseRecord>::spec_reads(database_text@) {
                    RecordManeger::<MiniDatabaseRecord>::spec_built_from(
                        Err(msg),
                        "mini_database"@,
                        database_text@,
                    )
                } else if !RecordManeger::<MiniClassRecord>::spec_reads(class_text@) {
                    RecordManeger::<MiniClassRecord>::spec_built_from(
                        Err(msg),
                        "mini_class"@,
                        class_text@,
                    )
                } else {
                    RecordManeger::<MiniAttributeRecord>::spec_built_from(
                        Err(msg),
                        "mini_attribute"@,
                        attribute_text@,
                    )
                }
            },
    {
        let database_rm = match RecordManeger::mini_database_rm(database_text) {
            Ok(rm) => rm,
            Err(msg) => {
                return Err(msg);
            },
        };
        let class_rm = match RecordManeger::mini_class_rm(class_text) {
            Ok(rm) => rm,
            Err(msg) => {
                return Err(msg);
            },
        };
        let attribute_rm = match RecordManeger::mini_attribute_rm(attribute_text) {
            Ok(rm) => rm,
            Err(msg) => {
                return Err(msg);
            },
        };
        Ok(CatalogManager { database_rm: database_rm, class_rm: class_rm, attribute_rm: attribute_rm })
    }
}

} // verus!
