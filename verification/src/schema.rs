//! The fixed strings of the package format: the XML declaration and the
//! namespace identifiers of the vocabularies that the parts use.

use vstd::prelude::*;

verus! {

/// The declaration that opens every part.
pub const SCHEMA_XML: &'static str = "<?xml version=\"1.0\" encoding=\"UTF-8\" standalone=\"yes\"?>";

/// The main word-processing vocabulary, bound to the prefix `w`.
pub const SCHEMA_MAIN: &'static str = "http://schemas.openxmlformats.org/wordprocessingml/2006/main";

/// The Word 2010 extension vocabulary, bound to the prefix `w14`.
pub const SCHEMA_WORDML_14: &'static str = "http://schemas.microsoft.com/office/word/2010/wordml";

/// The drawing vocabulary, bound to the prefix `wp`.
pub const SCHEMA_WP: &'static str = "http://schemas.openxmlformats.org/drawingml/2006/wordprocessingDrawing";

/// The relationships vocabulary, bound to the prefix `r`.
pub const SCHEMA_RELATIONSHIPS_DOCUMENT: &'static str = "http://schemas.openxmlformats.org/officeDocument/2006/relationships";

/// The extended (application) properties vocabulary.
pub const SCHEMAS_EXTENDED: &'static str = "http://schemas.openxmlformats.org/officeDocument/2006/extended-properties";

/// The variant types vocabulary, bound to the prefix `vt`.
pub const SCHEMA_DOC_PROPS_V_TYPES: &'static str = "http://schemas.openxmlformats.org/officeDocument/2006/docPropsVTypes";

/// The two vocabularies of the properties part are not the same.
pub proof fn lemma_property_schemas_differ()
    ensures
        SCHEMAS_EXTENDED@ != SCHEMA_DOC_PROPS_V_TYPES@,
{
    reveal_strlit("http://schemas.openxmlformats.org/officeDocument/2006/extended-properties");
    reveal_strlit("http://schemas.openxmlformats.org/officeDocument/2006/docPropsVTypes");
    assert(SCHEMAS_EXTENDED@.len() != SCHEMA_DOC_PROPS_V_TYPES@.len());
}

} // verus!
