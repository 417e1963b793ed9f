//! Chinese text conversion between scripts, through the `ferrous_opencc`
//! crate.  The converter is opaque to verification; what is relied on is
//! that a converter built from a named built-in configuration turns a text
//! into a result that depends on that name and the text alone.

use vstd::prelude::*;

verus! {

#[verifier::external_type_specification]
#[verifier::external_body]
pub struct ExOpenCC(ferrous_opencc::OpenCC);

#[verifier::external_type_specification]
#[verifier::external_body]
pub struct ExOpenCCError(ferrous_opencc::error::OpenCCError);

/// What `ferrous_opencc` produces for a built-in configuration name and an
/// input text.
pub uninterp spec fn converted_text(config: Seq<char>, input: Seq<char>) -> Seq<char>;

/// Conversion failed because no built-in configuration has the given name
/// or it could not be loaded.
#[derive(Debug, Clone, Copy, PartialEq, Eq, Structural)]
pub enum TextConvertError {
    InvalidConfig,
}

/// A converter bound to one built-in OpenCC configuration.
pub struct TextConverter {
    inner: ferrous_opencc::OpenCC,
    config_name: String,
}

impl TextConverter {
    /// The configuration file name the converter was built from.
    pub closed spec fn spec_config(&self) -> Seq<char> {
        self.config_name@
    }

    /// Relies on `BuiltinConfig::from_filename` and `OpenCC::from_config`:
    /// a converter is built from the named embedded configuration alone.
    #[verifier::external_body]
    fn build(config_name: &str) -> (r: Result<TextConverter, ferrous_opencc::error::OpenCCError>)
        ensures
            r is Ok ==> r->Ok_0.spec_config() == config_name@,
    {
        let config = ferrous_opencc::config::BuiltinConfig::from_filename(config_name)?;
        let inner = ferrous_opencc::OpenCC::from_config(config)?;
        Ok(TextConverter { inner, config_name: config_name.to_owned() })
    }

    /// A converter for a built-in configuration name such as `"s2t.json"`.
    pub fn new(config_name: &str) -> (r: Result<TextConverter, TextConvertError>)
        ensures
            r is Ok ==> r->Ok_0.spec_config() == config_name@,
    {
        match Self::build(config_name) {
            Ok(c) => Ok(c),
            Err(_) => Err(TextConvertError::InvalidConfig),
        }
    }

    /// Relies on `OpenCC::convert`: the result is a pure function of the
    /// configuration the converter was built from and the input text.
    #[verifier::external_body]
    pub fn convert(&self, input: &str) -> (r: String)
        ensures
            r@ == converted_text(self.spec_config(), input@),
    {
        self.inner.convert(input)
    }
}

} // verus!
