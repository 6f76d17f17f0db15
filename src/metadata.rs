//! Metadata records and sample settings.
use vstd::prelude::*;

verus! {

/// Attribute metadata of an entity.
pub struct EntityAttribute {
    /// Logical name of the attribute.
    pub logical_name: String,
    /// Schema name of the attribute.
    pub schema_name: String,
    /// Attribute type name.
    pub attribute_type: Option<String>,
    /// True if the attribute is custom.
    pub is_custom_attribute: Option<bool>,
    /// True if the attribute is valid for OData.
    pub is_valid_odata_attribute: Option<bool>,
    /// True if the attribute is valid for read operations.
    pub is_valid_for_read: Option<bool>,
}

/// Connection settings of the sample programs.
pub struct Secrets {
    pub client_id: String,
    pub client_secret: String,
    pub tenant_id: String,
    pub scope: String,
    pub dataverse_url: String,
    pub sample_entity_logical: String,
    pub sample_entity_set: String,
    pub sample_fetchxml: String,
}

} // verus!
