use vstd::prelude::*;

verus! {

/// The mathematical content of one reading.
///
/// `timestamp` is seconds since the Unix epoch: after the first pass it is
/// the naive local wall-clock time read as if it were UTC; after the second
/// pass it is the true UTC instant.  The temperature and the optional
/// humidity are the raw field texts (quotes stripped), kept verbatim: the
/// pipeline validates that they are readable numbers but never needs their
/// numeric values, which use floating point and are the caller's business.
#[verifier::ext_equal]
pub ghost struct SpecReading {
    pub timestamp: int,
    pub temperature: Seq<char>,
    pub humidity: Option<Seq<char>>,
}

/// One sensor reading, in file order.
///
/// See [`SpecReading`] for what the fields mean; the temperature and
/// humidity texts are in the unit the file declared, and satisfy the
/// standard floating-point grammar.
#[derive(Clone, Debug, PartialEq, Eq)]
pub struct DataPoint {
    /// Seconds since the Unix epoch; local wall-clock seconds after the
    /// first pass, true UTC seconds after the second.
    pub timestamp: i64,
    /// The raw temperature field, quotes stripped.
    pub temperature: String,
    /// The raw humidity field, quotes stripped, when the file carries one.
    pub humidity: Option<String>,
}

impl View for DataPoint {
    type V = SpecReading;

    open spec fn view(&self) -> SpecReading {
        SpecReading {
            timestamp: self.timestamp as int,
            temperature: self.temperature@,
            humidity: match self.humidity {
                Some(h) => Some(h@),
                None => None,
            },
        }
    }
}

} // verus!
