//! Weather dashboard data: the condition-code decoding and the plain display
//! values a daily status is built from.

use vstd::prelude::*;

use crate::text::{decimal_digits, u64_to_string};

verus! {

/// A failure reported by the weather service, as a message.
#[derive(Clone, Debug)]
pub struct OneAPIError {
    pub message: String,
}

/// A sky condition as the weather service reports it.
#[derive(Clone, Debug)]
pub struct SkyDescription {
    pub id: u16,
    pub main: String,
    pub description: String,
    pub icon: String,
}

/// One displayed temperature reading: the hour of day and whole degrees.
#[derive(Clone, Copy, Debug, PartialEq, Eq, Structural)]
pub struct TemperatureDatum {
    pub time: u16,
    pub temperature: u16,
}

/// What a temperature reading displays as: the degrees and a degree sign.
pub open spec fn temperature_text(temperature: u16) -> Seq<char> {
    decimal_digits(temperature as int) + "\u{b0}"@
}

/// What an hour of day displays as on a twelve-hour clock.
pub open spec fn time_text(time: u16) -> Seq<char> {
    if time == 12 {
        decimal_digits(12) + " PM"@
    } else if time == 0 {
        "12 AM"@
    } else if time > 12 {
        decimal_digits(time - 12) + " PM"@
    } else {
        decimal_digits(time as int) + " AM"@
    }
}

impl TemperatureDatum {
    /// The reading's temperature as displayed: degrees and a degree sign.
    pub fn get_temperature(&self) -> (r: String)
        ensures
            r@ == temperature_text(self.temperature),
    {
        let mut r = u64_to_string(self.temperature as u64);
        r.append("\u{b0}");
        r
    }

    /// The reading's hour as displayed, on a twelve-hour clock.
    pub fn get_time(&self) -> (r: String)
        ensures
            r@ == time_text(self.time),
    {
        if self.time == 12 {
            let mut r = u64_to_string(12);
            r.append(" PM");
            r
        } else if self.time == 0 {
            String::from_str("12 AM")
        } else if self.time > 12 {
            let mut r = u64_to_string((self.time - 12) as u64);
            r.append(" PM");
            r
        } else {
            let mut r = u64_to_string(self.time as u64);
            r.append(" AM");
            r
        }
    }
}

/// One day's displayed weather: current reading, day name, and the derived
/// display values.
#[derive(Clone, Debug)]
pub struct DailyStatus {
    pub current: TemperatureDatum,
    pub day: String,
    pub humidity: u16,
    pub icon: String,
    pub times: [TemperatureDatum; 3],
    pub uv: u16,
    pub wind: u16,
}

/// The icon a weather condition code maps to, qualified by heavy cloud
/// cover and by day or night.
pub open spec fn icon_name(id: u16, high_clouds: bool, day: bool) -> Seq<char> {
    if 200 <= id <= 202 {
        if high_clouds {
            "thunderstorms-rain"@
        } else if day {
            "thunderstorms-day-rain"@
        } else {
            "thunderstorms-night-rain"@
        }
    } else if (210 <= id <= 212) || id == 221 || (230 <= id <= 232) {
        if high_clouds {
            "thunderstorms"@
        } else if day {
            "thunderstorms-day"@
        } else {
            "thunderstorms-night"@
        }
    } else if (300 <= id <= 302) || id == 313 || id == 314 || id == 321 {
        if high_clouds {
            "drizzle"@
        } else if day {
            "partly-cloudy-day-drizzle"@
        } else {
            "partly-cloudy-night-drizzle"@
        }
    } else if (310 <= id <= 312) || (500 <= id <= 504) || id == 511 || (520 <= id <= 522) || id
        == 530 {
        if high_clouds {
            "rain"@
        } else if day {
            "partly-cloudy-day-rain"@
        } else {
            "partly-cloudy-night-rain"@
        }
    } else if (600 <= id <= 602) || id == 615 || id == 616 || (620 <= id <= 622) {
        if high_clouds {
            "snow"@
        } else if day {
            "partly-cloudy-day-snow"@
        } else {
            "partly-cloudy-night-snow"@
        }
    } else if 611 <= id <= 613 {
        if high_clouds {
            "sleet"@
        } else if day {
            "partly-cloudy-day-sleet"@
        } else {
            "partly-cloudy-night-sleet"@
        }
    } else if id == 701 {
        "mist"@
    } else if id == 711 {
        if high_clouds {
            "smoke"@
        } else if day {
            "partly-cloudy-day-smoke"@
        } else {
            "partly-cloudy-night-smoke"@
        }
    } else if id == 721 {
        if high_clouds {
            "haze"@
        } else if day {
            "haze-day"@
        } else {
            "haze-night"@
        }
    } else if id == 731 || id == 751 || id == 761 {
        if high_clouds {
            "dust"@
        } else if day {
            "dust-day"@
        } else {
            "dust-night"@
        }
    } else if id == 741 {
        if high_clouds {
            "fog"@
        } else if day {
            "fog-day"@
        } else {
            "fog-night"@
        }
    } else if id == 762 {
        "volcano"@
    } else if id == 771 {
        "wind"@
    } else if id == 781 {
        "tornado"@
    } else if id == 800 {
        if day {
            "clear-day"@
        } else {
            "clear-night"@
        }
    } else if id == 801 || id == 802 {
        if day {
            "partly-cloudy-day"@
        } else {
            "partly-cloudy-night"@
        }
    } else if id == 803 {
        "cloudy"@
    } else if id == 804 {
        "overcast"@
    } else {
        ""@
    }
}

/// Decodes a weather condition code into its icon name, qualified by heavy
/// cloud cover and by day or night; an unknown code decodes to an empty
/// name.
pub fn decode_icon(id: u16, high_clouds: bool, day: bool) -> (r: String)
    ensures
        r@ == icon_name(id, high_clouds, day),
{
    let status: &str = if 200 <= id && id <= 202 {
        if high_clouds {
            "thunderstorms-rain"
        } else if day {
            "thunderstorms-day-rain"
        } else {
            "thunderstorms-night-rain"
        }
    } else if (210 <= id && id <= 212) || id == 221 || (230 <= id && id <= 232) {
        if high_clouds {
            "thunderstorms"
        } else if day {
            "thunderstorms-day"
        } else {
            "thunderstorms-night"
        }
    } else if (300 <= id && id <= 302) || id == 313 || id == 314 || id == 321 {
        if high_clouds {
            "drizzle"
        } else if day {
            "partly-cloudy-day-drizzle"
        } else {
            "partly-cloudy-night-drizzle"
        }
    } else if (310 <= id && id <= 312) || (500 <= id && id <= 504) || id == 511 || (520 <= id && id
        <= 522) || id == 530 {
        if high_clouds {
            "rain"
        } else if day {
            "partly-cloudy-day-rain"
        } else {
            "partly-cloudy-night-rain"
        }
    } else if (600 <= id && id <= 602) || id == 615 || id == 616 || (620 <= id && id <= 622) {
        if high_clouds {
            "snow"
        } else if day {
            "partly-cloudy-day-snow"
        } else {
            "partly-cloudy-night-snow"
        }
    } else if 611 <= id && id <= 613 {
        if high_clouds {
            "sleet"
        } else if day {
            "partly-cloudy-day-sleet"
        } else {
            "partly-cloudy-night-sleet"
        }
    } else if id == 701 {
        "mist"
    } else if id == 711 {
        if high_clouds {
            "smoke"
        } else if day {
            "partly-cloudy-day-smoke"
        } else {
            "partly-cloudy-night-smoke"
        }
    } else if id == 721 {
        if high_clouds {
            "haze"
        } else if day {
            "haze-day"
        } else {
            "haze-night"
        }
    } else if id == 731 || id == 751 || id == 761 {
        if high_clouds {
            "dust"
        } else if day {
            "dust-day"
        } else {
            "dust-night"
        }
    } else if id == 741 {
        if high_clouds {
            "fog"
        } else if day {
            "fog-day"
        } else {
            "fog-night"
        }
    } else if id == 762 {
        "volcano"
    } else if id == 771 {
        "wind"
    } else if id == 781 {
        "tornado"
    } else if id == 800 {
        if day {
            "clear-day"
        } else {
            "clear-night"
        }
    } else if id == 801 || id == 802 {
        if day {
            "partly-cloudy-day"
        } else {
            "partly-cloudy-night"
        }
    } else if id == 803 {
        "cloudy"
    } else if id == 804 {
        "overcast"
    } else {
        ""
    };

    String::from_str(status)
}

} // verus!
