//! Where the notes of each release are found.

use vstd::prelude::*;
use crate::text::same_text;

verus! {

/// The page that tells what changed in a release: the notes of the releases
/// that have their own, and the top of the release notes for any other.
pub open spec fn link_of(version: Seq<char>) -> Seq<char> {
    if version == "master"@ {
        "https://github.com/rust-lang/rust/commits/master"@
    } else if version == "0.1"@ {
        "https://github.com/rust-lang/rust/blob/master/RELEASES.md#version-01--2012-01-20"@
    } else if version == "0.2"@ {
        "https://github.com/rust-lang/rust/blob/master/RELEASES.md#version-02--2012-03-29"@
    } else if version == "0.3"@ {
        "https://github.com/rust-lang/rust/blob/master/RELEASES.md#version-03--2012-07-12"@
    } else if version == "0.4"@ {
        "https://github.com/rust-lang/rust/blob/master/RELEASES.md#version-04-2012-10-15"@
    } else if version == "0.5"@ {
        "https://github.com/rust-lang/rust/blob/master/RELEASES.md#version-05-2012-12-21"@
    } else if version == "0.6"@ {
        "https://github.com/rust-lang/rust/blob/master/RELEASES.md#version-06-2013-04-03"@
    } else if version == "0.7"@ {
        "https://github.com/rust-lang/rust/blob/master/RELEASES.md#version-07-2013-07-03"@
    } else if version == "0.8"@ {
        "https://github.com/rust-lang/rust/blob/master/RELEASES.md#version-08-2013-09-26"@
    } else if version == "0.9"@ {
        "https://github.com/rust-lang/rust/blob/master/RELEASES.md#version-09-2014-01-09"@
    } else if version == "0.10"@ {
        "https://github.com/rust-lang/rust/blob/master/RELEASES.md#version-010-2014-04-03"@
    } else if version == "0.11.0"@ {
        "https://github.com/rust-lang/rust/blob/master/RELEASES.md#version-0110-2014-07-02"@
    } else if version == "0.12.0"@ {
        "https://github.com/rust-lang/rust/blob/master/RELEASES.md#version-0120-2014-10-09"@
    } else if version == "1.0.0-alpha"@ {
        "https://github.com/rust-lang/rust/blob/master/RELEASES.md#version-100-alpha-2015-01-09"@
    } else if version == "1.0.0-alpha.2"@ {
        "https://github.com/rust-lang/rust/blob/master/RELEASES.md#version-100-alpha2-2015-02-20"@
    } else if version == "1.0.0-beta"@ {
        "https://github.com/rust-lang/rust/blob/master/RELEASES.md#"@
    } else if version == "1.0.0"@ {
        "https://github.com/rust-lang/rust/blob/master/RELEASES.md#version-100-2015-05-15"@
    } else if version == "1.1.0"@ {
        "https://github.com/rust-lang/rust/blob/master/RELEASES.md#version-110-2015-06-25"@
    } else if version == "1.2.0"@ {
        "https://github.com/rust-lang/rust/blob/master/RELEASES.md#version-120-2015-08-07"@
    } else if version == "1.3.0"@ {
        "https://github.com/rust-lang/rust/blob/master/RELEASES.md#version-130-2015-09-17"@
    } else if version == "1.4.0"@ {
        "https://github.com/rust-lang/rust/blob/master/RELEASES.md#version-140-2015-10-29"@
    } else if version == "1.5.0"@ {
        "https://github.com/rust-lang/rust/blob/master/RELEASES.md#version-150-2015-12-10"@
    } else if version == "1.6.0"@ {
        "https://github.com/rust-lang/rust/blob/master/RELEASES.md#version-160-2016-01-21"@
    } else if version == "1.7.0"@ {
        "https://github.com/rust-lang/rust/blob/master/RELEASES.md#version-170-2016-03-03"@
    } else if version == "1.8.0"@ {
        "https://github.com/rust-lang/rust/blob/master/RELEASES.md#version-180-2016-04-14"@
    } else if version == "1.9.0"@ {
        "https://github.com/rust-lang/rust/blob/master/RELEASES.md#version-190-2016-05-26"@
    } else if version == "1.10.0"@ {
        "https://github.com/rust-lang/rust/blob/master/RELEASES.md#version-1100-2016-07-07"@
    } else if version == "1.11.0"@ {
        "https://github.com/rust-lang/rust/blob/master/RELEASES.md#version-1110-2016-08-18"@
    } else if version == "1.12.0"@ {
        "https://github.com/rust-lang/rust/blob/master/RELEASES.md#version-1120-2016-09-29"@
    } else if version == "1.12.1"@ {
        "https://github.com/rust-lang/rust/blob/master/RELEASES.md#version-1121-2016-10-20"@
    } else if version == "1.13.0"@ {
        "https://github.com/rust-lang/rust/blob/master/RELEASES.md#version-1130-2016-11-10"@
    } else if version == "1.14.0"@ {
        "https://github.com/rust-lang/rust/blob/master/RELEASES.md#version-1140-2016-12-22"@
    } else if version == "1.15.0"@ {
        "https://github.com/rust-lang/rust/blob/master/RELEASES.md#version-1150-2017-02-02"@
    } else if version == "1.15.1"@ {
        "https://github.com/rust-lang/rust/blob/master/RELEASES.md#version-1151-2017-02-09"@
    } else if version == "1.16.0"@ {
        "https://github.com/rust-lang/rust/blob/master/RELEASES.md#version-1160-2017-03-16"@
    } else {
        "https://github.com/rust-lang/rust/blob/master/RELEASES.md#"@
    }
}

/// The page that tells what changed in a release.
pub fn changelog_link(version: &str) -> (link: &'static str)
    ensures
        link@ == link_of(version@),
{
    if same_text(version, "master") {
        return "https://github.com/rust-lang/rust/commits/master";
    }
    if same_text(version, "0.1") {
        return "https://github.com/rust-lang/rust/blob/master/RELEASES.md#version-01--2012-01-20";
    }
    if same_text(version, "0.2") {
        return "https://github.com/rust-lang/rust/blob/master/RELEASES.md#version-02--2012-03-29";
    }
    if same_text(version, "0.3") {
        return "https://github.com/rust-lang/rust/blob/master/RELEASES.md#version-03--2012-07-12";
    }
    if same_text(version, "0.4") {
        return "https://github.com/rust-lang/rust/blob/master/RELEASES.md#version-04-2012-10-15";
    }
    if same_text(version, "0.5") {
        return "https://github.com/rust-lang/rust/blob/master/RELEASES.md#version-05-2012-12-21";
    }
    if same_text(version, "0.6") {
        return "https://github.com/rust-lang/rust/blob/master/RELEASES.md#version-06-2013-04-03";
    }
    if same_text(version, "0.7") {
        return "https://github.com/rust-lang/rust/blob/master/RELEASES.md#version-07-2013-07-03";
    }
    if same_text(version, "0.8") {
        return "https://github.com/rust-lang/rust/blob/master/RELEASES.md#version-08-2013-09-26";
    }
    if same_text(version, "0.9") {
        return "https://github.com/rust-lang/rust/blob/master/RELEASES.md#version-09-2014-01-09";
    }
    if same_text(version, "0.10") {
        return "https://github.com/rust-lang/rust/blob/master/RELEASES.md#version-010-2014-04-03";
    }
    if same_text(version, "0.11.0") {
        return "https://github.com/rust-lang/rust/blob/master/RELEASES.md#version-0110-2014-07-02";
    }
    if same_text(version, "0.12.0") {
        return "https://github.com/rust-lang/rust/blob/master/RELEASES.md#version-0120-2014-10-09";
    }
    if same_text(version, "1.0.0-alpha") {
        return "https://github.com/rust-lang/rust/blob/master/RELEASES.md#version-100-alpha-2015-01-09";
    }
    if same_text(version, "1.0.0-alpha.2") {
        return "https://github.com/rust-lang/rust/blob/master/RELEASES.md#version-100-alpha2-2015-02-20";
    }
    if same_text(version, "1.0.0-beta") {
        return "https://github.com/rust-lang/rust/blob/master/RELEASES.md#";
    }
    if same_text(version, "1.0.0") {
        return "https://github.com/rust-lang/rust/blob/master/RELEASES.md#version-100-2015-05-15";
    }
    if same_text(version, "1.1.0") {
        return "https://github.com/rust-lang/rust/blob/master/RELEASES.md#version-110-2015-06-25";
    }
    if same_text(version, "1.2.0") {
        return "https://github.com/rust-lang/rust/blob/master/RELEASES.md#version-120-2015-08-07";
    }
    if same_text(version, "1.3.0") {
        return "https://github.com/rust-lang/rust/blob/master/RELEASES.md#version-130-2015-09-17";
    }
    if same_text(version, "1.4.0") {
        return "https://github.com/rust-lang/rust/blob/master/RELEASES.md#version-140-2015-10-29";
    }
    if same_text(version, "1.5.0") {
        return "https://github.com/rust-lang/rust/blob/master/RELEASES.md#version-150-2015-12-10";
    }
    if same_text(version, "1.6.0") {
        return "https://github.com/rust-lang/rust/blob/master/RELEASES.md#version-160-2016-01-21";
    }
    if same_text(version, "1.7.0") {
        return "https://github.com/rust-lang/rust/blob/master/RELEASES.md#version-170-2016-03-03";
    }
    if same_text(version, "1.8.0") {
        return "https://github.com/rust-lang/rust/blob/master/RELEASES.md#version-180-2016-04-14";
    }
    if same_text(version, "1.9.0") {
        return "https://github.com/rust-lang/rust/blob/master/RELEASES.md#version-190-2016-05-26";
    }
    if same_text(version, "1.10.0") {
        return "https://github.com/rust-lang/rust/blob/master/RELEASES.md#version-1100-2016-07-07";
    }
    if same_text(version, "1.11.0") {
        return "https://github.com/rust-lang/rust/blob/master/RELEASES.md#version-1110-2016-08-18";
    }
    if same_text(version, "1.12.0") {
        return "https://github.com/rust-lang/rust/blob/master/RELEASES.md#version-1120-2016-09-29";
    }
    if same_text(version, "1.12.1") {
        return "https://github.com/rust-lang/rust/blob/master/RELEASES.md#version-1121-2016-10-20";
    }
    if same_text(version, "1.13.0") {
        return "https://github.com/rust-lang/rust/blob/master/RELEASES.md#version-1130-2016-11-10";
    }
    if same_text(version, "1.14.0") {
        return "https://github.com/rust-lang/rust/blob/master/RELEASES.md#version-1140-2016-12-22";
    }
    if same_text(version, "1.15.0") {
        return "https://github.com/rust-lang/rust/blob/master/RELEASES.md#version-1150-2017-02-02";
    }
    if same_text(version, "1.15.1") {
        return "https://github.com/rust-lang/rust/blob/master/RELEASES.md#version-1151-2017-02-09";
    }
    if same_text(version, "1.16.0") {
        return "https://github.com/rust-lang/rust/blob/master/RELEASES.md#version-1160-2017-03-16";
    }
    "https://github.com/rust-lang/rust/blob/master/RELEASES.md#"
}

} // verus!
