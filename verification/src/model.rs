//! The schema of a decoded flight recording, independent of the source
//! encoding, together with the closed error taxonomy of the loader.
//!
//! Decimal quantities (speeds, fuel weights, fuel quantities) are kept as
//! the validated numeric token exactly as it stood in the document, so that
//! no precision is lost and no floating-point value enters the library.
//! Callers convert the token to whatever numeric type they need.

use vstd::prelude::*;

verus! {

/// A decimal quantity, held as the bytes of the number token that encoded
/// it (for example `12.5` or `-3e2`), exactly as the document wrote it —
/// or the schema default `0` where an extended member was absent.
#[derive(Debug, Clone, PartialEq, Eq)]
pub struct Decimal {
    /// The bytes of the number token, exactly as written in the document.
    pub text: Vec<u8>,
}

impl View for Decimal {
    type V = Seq<u8>;

    open spec fn view(&self) -> Seq<u8> {
        self.text@
    }
}

/// Static information about the plane that performed the flight.
#[derive(Debug, Clone, PartialEq, Eq)]
pub struct PlaneInformation {
    /// The name of the plane, as the recording simulator reported it.
    pub name: Vec<u8>,
    /// The overall amount of fuel the plane can carry, in gallons.
    pub fuel_capacity: u32,
    /// The number of engines the plane had when performing the flight.
    pub number_of_engines: u8,
    /// The weight of one gallon of fuel for the plane, in pounds.
    pub fuel_weight: Decimal,
    /// The amount of fuel, in gallons, which is not usable by the plane.
    pub unusable_fuel_quantity: Decimal,
}

/// The mathematical value of a [`PlaneInformation`].
pub struct PlaneInformationView {
    pub name: Seq<u8>,
    pub fuel_capacity: u32,
    pub number_of_engines: u8,
    pub fuel_weight: Seq<u8>,
    pub unusable_fuel_quantity: Seq<u8>,
}

impl View for PlaneInformation {
    type V = PlaneInformationView;

    open spec fn view(&self) -> PlaneInformationView {
        PlaneInformationView {
            name: self.name@,
            fuel_capacity: self.fuel_capacity,
            number_of_engines: self.number_of_engines,
            fuel_weight: self.fuel_weight@,
            unusable_fuel_quantity: self.unusable_fuel_quantity@,
        }
    }
}

/// The four flight-phase boundary timestamps of a flight: block-off (first
/// movement), takeoff (wheels up), landing (wheels down) and block-on
/// (final stop, engines off). The loader enforces no ordering among them.
#[derive(Debug, Clone, PartialEq, Eq)]
pub struct Times {
    /// The time when the plane started moving for the first time.
    pub block_off_time: Vec<u8>,
    /// The time when the plane arrived at its final position.
    pub block_on_time: Vec<u8>,
    /// The time the plane landed on the runway.
    pub landing_time: Vec<u8>,
    /// The time the plane took off from the runway.
    pub takeoff_time: Vec<u8>,
}

/// The mathematical value of a [`Times`].
pub struct TimesView {
    pub block_off_time: Seq<u8>,
    pub block_on_time: Seq<u8>,
    pub landing_time: Seq<u8>,
    pub takeoff_time: Seq<u8>,
}

impl View for Times {
    type V = TimesView;

    open spec fn view(&self) -> TimesView {
        TimesView {
            block_off_time: self.block_off_time@,
            block_on_time: self.block_on_time@,
            landing_time: self.landing_time@,
            takeoff_time: self.takeoff_time@,
        }
    }
}

/// One periodic fuel sample taken during the flight. The position of a
/// record inside [`FlygFlight::fuel_records`] is the temporal order of
/// sampling.
#[derive(Debug, Clone, PartialEq, Eq)]
pub struct FuelRecord {
    /// The remaining fuel the plane was carrying, in gallons.
    pub fuel_quantity: Decimal,
}

/// The mathematical value of a [`FuelRecord`].
pub struct FuelRecordView {
    pub fuel_quantity: Seq<u8>,
}

impl View for FuelRecord {
    type V = FuelRecordView;

    open spec fn view(&self) -> FuelRecordView {
        FuelRecordView { fuel_quantity: self.fuel_quantity@ }
    }
}

/// The root of a recorded flight.
#[derive(Debug, Clone, PartialEq, Eq)]
pub struct FlygFlight {
    /// The static information about the used plane.
    pub plane_information: PlaneInformation,
    /// The touchdown speed of the plane in feet per second.
    pub landing_speed: Decimal,
    /// The important time recordings of the flight.
    pub times: Times,
    /// All fuel related dynamic information recorded during the flight.
    pub fuel_records: Vec<FuelRecord>,
}

/// The mathematical value of a [`FlygFlight`].
pub struct FlygFlightView {
    pub plane_information: PlaneInformationView,
    pub landing_speed: Seq<u8>,
    pub times: TimesView,
    pub fuel_records: Seq<FuelRecordView>,
}

impl View for FlygFlight {
    type V = FlygFlightView;

    open spec fn view(&self) -> FlygFlightView {
        FlygFlightView {
            plane_information: self.plane_information@,
            landing_speed: self.landing_speed@,
            times: self.times@,
            fuel_records: self.fuel_records@.map_values(|r: FuelRecord| r@),
        }
    }
}

/// Everything that can go wrong when loading a flight recording, one
/// classification per failure origin: opening the file, decompressing it,
/// or interpreting its content. No further detail is preserved.
#[derive(Debug, Clone, Copy, PartialEq, Eq, Structural)]
pub enum FlygFormatError {
    /// The supplied file could not be opened (permissions, missing file).
    CouldNotOpenFile,
    /// The content of the supplied file could not be interpreted.
    FileFormatNotRecognized,
    /// The provided file could not be decompressed.
    DecompressionFailed,
}

impl FlygFormatError {
    /// A human-readable description of the error.
    pub fn message(&self) -> (r: &'static str)
        ensures
            *self == FlygFormatError::CouldNotOpenFile ==> r@ == "The supplied file could not be opened"@,
            *self == FlygFormatError::FileFormatNotRecognized ==> r@ == "Content of supplied file is not recognized"@,
            *self == FlygFormatError::DecompressionFailed ==> r@ == "Could not decompress file"@,
    {
        match self {
            FlygFormatError::CouldNotOpenFile => "The supplied file could not be opened",
            FlygFormatError::FileFormatNotRecognized => "Content of supplied file is not recognized",
            FlygFormatError::DecompressionFailed => "Could not decompress file",
        }
    }
}

} // verus!
