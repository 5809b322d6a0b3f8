use chrono::DateTime;
use chrono::Utc;

use heatmap::model::ActivityType;
use heatmap::model::ParseError;
use heatmap::model::Point;
use heatmap::model::TrkPt;
use heatmap::num::parse_decimal;
use heatmap::parse::get_pts;

fn ts(s: &str) -> i64 {
    s.parse::<DateTime<Utc>>().unwrap().timestamp()
}

fn pt(lat: i64, lng: i64, time: Option<i64>) -> TrkPt {
    TrkPt { center: Point { lat, lng }, time }
}

#[test]
fn gpx() {
    let gpx = r#"<?xml version="1.0" encoding="UTF-8"?>
<gpx xmlns:xsi="http://www.w3.org/2001/XMLSchema-instance" xsi:schemaLocation="http://www.topografix.com/GPX/1/1 http://www.topografix.com/GPX/1/1/gpx.xsd" version="1.1" xmlns="http://www.topografix.com/GPX/1/1">
 <metadata>
  <time>2019-05-09T02:39:00Z</time>
 </metadata>
 <trk>
  <name>Ride</name>
  <type>1</type>
  <trkseg>
   <trkpt lat="30.2430140" lon="-97.8100160">
    <ele>177.8</ele>
    <time>2019-11-10T20:49:52Z</time>
   </trkpt>
   <trkpt lat="30.2429950" lon="-97.8100270">
    <ele>177.6</ele>
    <time>2019-11-10T20:49:53Z</time>
   </trkpt>
   <trkpt lat="30.2428630" lon="-97.8101550">
    <ele>177.9</ele>
    <time>2019-11-10T20:49:54Z</time>
   </trkpt>
   <trkpt lat="30.2428470" lon="-97.8102190">
    <ele>178.0</ele>
    <time>2019-11-10T20:49:55Z</time>
   </trkpt>
   <trkpt lat="30.2428310" lon="-97.8102830">
    <ele>178.2</ele>
    <time>2019-11-10T20:49:56Z</time>
   </trkpt>
   <trkpt lat="30.2427670" lon="-97.8105240">
    <ele>179.0</ele>
    <time>2019-11-10T20:49:57Z</time>
   </trkpt>
   <trkpt lat="30.2427500" lon="-97.8105730">
    <ele>179.1</ele>
    <time>2019-11-10T20:49:58Z</time>
   </trkpt>
   <trkpt lat="30.2427330" lon="-97.8106130">
    <ele>179.3</ele>
    <time>2019-11-10T20:49:59Z</time>
   </trkpt>
  </trkseg>
 </trk>
</gpx>
"#;
    assert_eq!(
        get_pts(gpx, &None, &None, &None).unwrap(),
        vec![
            pt(30_243_014_000, -97_810_016_000, Some(ts("2019-11-10T20:49:52Z"))),
            pt(30_242_995_000, -97_810_027_000, Some(ts("2019-11-10T20:49:53Z"))),
            pt(30_242_863_000, -97_810_155_000, Some(ts("2019-11-10T20:49:54Z"))),
            pt(30_242_847_000, -97_810_219_000, Some(ts("2019-11-10T20:49:55Z"))),
            pt(30_242_831_000, -97_810_283_000, Some(ts("2019-11-10T20:49:56Z"))),
            pt(30_242_767_000, -97_810_524_000, Some(ts("2019-11-10T20:49:57Z"))),
            pt(30_242_750_000, -97_810_573_000, Some(ts("2019-11-10T20:49:58Z"))),
            pt(30_242_733_000, -97_810_613_000, Some(ts("2019-11-10T20:49:59Z"))),
        ]
    );
}

#[test]
fn tcx() {
    let tcx = r#"<?xml version="1.0" encoding="UTF-8"?>
<TrainingCenterDatabase xsi:schemaLocation="http://www.garmin.com/xmlschemas/TrainingCenterDatabase/v2 http://www.garmin.com/xmlschemas/TrainingCenterDatabasev2.xsd" xmlns:ns5="http://www.garmin.com/xmlschemas/ActivityGoals/v1" xmlns:ns3="http://www.garmin.com/xmlschemas/ActivityExtension/v2" xmlns:ns2="http://www.garmin.com/xmlschemas/UserProfile/v2" xmlns="http://www.garmin.com/xmlschemas/TrainingCenterDatabase/v2" xmlns:xsi="http://www.w3.org/2001/XMLSchema-instance">
 <Activities>
  <Activity Sport="Biking">
   <Id>2019-11-15T21:54:00Z</Id>
   <Lap StartTime="2019-11-15T21:54:00Z">
    <TotalTimeSeconds>5614</TotalTimeSeconds>
    <DistanceMeters>42651.5</DistanceMeters>
    <MaximumSpeed>65880.0</MaximumSpeed>
    <Calories>0</Calories>
    <AverageHeartRateBpm>
     <Value>161</Value>
    </AverageHeartRateBpm>
    <MaximumHeartRateBpm>
     <Value>189</Value>
    </MaximumHeartRateBpm>
    <Intensity>Active</Intensity>
    <TriggerMethod>Manual</TriggerMethod>
    <Track>
     <Trackpoint>
      <Time>2019-11-15T22:25:38Z</Time>
      <Position>
       <LatitudeDegrees>30.2431060</LatitudeDegrees>
       <LongitudeDegrees>-97.8099600</LongitudeDegrees>
      </Position>
      <AltitudeMeters>178.3</AltitudeMeters>
      <DistanceMeters>15251.8</DistanceMeters>
      <HeartRateBpm>
       <Value>131</Value>
      </HeartRateBpm>
     </Trackpoint>
     <Trackpoint>
      <Time>2019-11-15T22:25:39Z</Time>
      <Position>
       <LatitudeDegrees>30.2430710</LatitudeDegrees>
       <LongitudeDegrees>-97.8099760</LongitudeDegrees>
      </Position>
      <AltitudeMeters>178.1</AltitudeMeters>
      <DistanceMeters>15257.7</DistanceMeters>
      <HeartRateBpm>
       <Value>130</Value>
      </HeartRateBpm>
     </Trackpoint>
     <Trackpoint>
      <Time>2019-11-15T22:25:40Z</Time>
      <Position>
       <LatitudeDegrees>30.2430000</LatitudeDegrees>
       <LongitudeDegrees>-97.8100070</LongitudeDegrees>
      </Position>
      <AltitudeMeters>177.7</AltitudeMeters>
      <DistanceMeters>15264.1</DistanceMeters>
      <HeartRateBpm>
       <Value>130</Value>
      </HeartRateBpm>
     </Trackpoint>
    </Track>
   </Lap>
  </Activity>
 </Activities>
</TrainingCenterDatabase>"#;
    assert_eq!(
        get_pts(tcx, &None, &None, &None).unwrap(),
        vec![
            pt(30_243_106_000, -97_809_960_000, Some(ts("2019-11-15T22:25:38Z"))),
            pt(30_243_071_000, -97_809_976_000, Some(ts("2019-11-15T22:25:39Z"))),
            pt(30_243_000_000, -97_810_007_000, Some(ts("2019-11-15T22:25:40Z"))),
        ]
    );
}

#[test]
fn trk_pts() {
    let gpx = r#"<?xml version="1.0" encoding="UTF-8"?>
<gpx xmlns:xsi="http://www.w3.org/2001/XMLSchema-instance" xsi:schemaLocation="http://www.topografix.com/GPX/1/1 http://www.topografix.com/GPX/1/1/gpx.xsd" version="1.1" xmlns="http://www.topografix.com/GPX/1/1">
 <metadata>
  <time>2019-05-09T02:39:00Z</time>
 </metadata>
 <trk>
  <name>Ride</name>
  <type>1</type>
  <trkseg>
   <trkpt lat="30.2430140" lon="-97.8100160">
    <ele>177.8</ele>
    <time>2019-11-10T20:49:52Z</time>
   </trkpt>
   <trkpt lat="30.2429950" lon="-97.8100270">
    <ele>177.6</ele>
    <time>2019-11-10T20:49:53Z</time>
   </trkpt>
   <trkpt lat="30.2428630" lon="-97.8101550">
    <ele>177.9</ele>
    <time>2019-11-10T20:49:54Z</time>
   </trkpt>
   <trkpt lat="30.2428470" lon="-97.8102190">
    <ele>178.0</ele>
    <time>2019-11-10T20:49:55Z</time>
   </trkpt>
   <trkpt lat="30.2428310" lon="-97.8102830">
    <ele>178.2</ele>
    <time>2019-11-10T20:49:56Z</time>
   </trkpt>
   <trkpt lat="30.2427670" lon="-97.8105240">
    <ele>179.0</ele>
    <time>2019-11-10T20:49:57Z</time>
   </trkpt>
   <trkpt lat="30.2427500" lon="-97.8105730">
    <ele>179.1</ele>
    <time>2019-11-10T20:49:58Z</time>
   </trkpt>
   <trkpt lat="30.2427330" lon="-97.8106130">
    <ele>179.3</ele>
    <time>2019-11-10T20:49:59Z</time>
   </trkpt>
  </trkseg>
 </trk>
</gpx>
"#;
    let pts = get_pts(gpx, &None, &None, &None).unwrap();
    assert_eq!(pts.len(), 8);
    assert_eq!(pts[0], pt(30_243_014_000, -97_810_016_000, Some(ts("2019-11-10T20:49:52Z"))));
    assert_eq!(pts[7], pt(30_242_733_000, -97_810_613_000, Some(ts("2019-11-10T20:49:59Z"))));
}

#[test]
fn gpx_type_filter_short_circuits() {
    // The declared type does not match the filter, so the rest of the track
    // is skipped without any point-level parse work: the malformed latitude
    // later in the document must not raise an error.
    let gpx = r#"<?xml version="1.0" encoding="UTF-8"?>
<gpx version="1.1">
 <trk>
  <type>9</type>
  <trkseg>
   <trkpt lat="not-a-number" lon="1.0">
    <time>also garbage</time>
   </trkpt>
  </trkseg>
 </trk>
</gpx>
"#;
    let filters = Some(vec![ActivityType::Bike]);
    assert_eq!(get_pts(gpx, &filters, &None, &None).unwrap(), vec![]);
}

#[test]
fn gpx_type_filter_match_keeps_points() {
    let gpx = r#"<?xml version="1.0" encoding="UTF-8"?>
<gpx version="1.1">
 <trk>
  <type>1</type>
  <trkseg>
   <trkpt lat="1.5" lon="2.5"></trkpt>
  </trkseg>
 </trk>
</gpx>
"#;
    let filters = Some(vec![ActivityType::Bike]);
    assert_eq!(
        get_pts(gpx, &filters, &None, &None).unwrap(),
        vec![pt(1_500_000_000, 2_500_000_000, None)]
    );
}

#[test]
fn tcx_sport_filter_short_circuits() {
    let tcx = r#"<?xml version="1.0" encoding="UTF-8"?>
<TrainingCenterDatabase>
 <Activities>
  <Activity Sport="Running">
   <Lap StartTime="2019-11-15T21:54:00Z">
    <Track>
     <Trackpoint>
      <Position>
       <LatitudeDegrees>bogus</LatitudeDegrees>
       <LongitudeDegrees>1.0</LongitudeDegrees>
      </Position>
     </Trackpoint>
    </Track>
   </Lap>
  </Activity>
 </Activities>
</TrainingCenterDatabase>"#;
    let filters = Some(vec![ActivityType::Bike]);
    assert_eq!(get_pts(tcx, &filters, &None, &None).unwrap(), vec![]);
}

#[test]
fn gpx_metadata_window_short_circuits() {
    // The metadata time is before the window's start: the whole document is
    // discarded without reading its (malformed) points.
    let gpx = r#"<?xml version="1.0" encoding="UTF-8"?>
<gpx version="1.1">
 <metadata>
  <time>2019-05-09T02:39:00Z</time>
 </metadata>
 <trk>
  <trkseg>
   <trkpt lat="oops" lon="1.0"></trkpt>
  </trkseg>
 </trk>
</gpx>
"#;
    let start = Some(ts("2020-01-01T00:00:00Z"));
    assert_eq!(get_pts(gpx, &None, &start, &None).unwrap(), vec![]);
    // Inside the window the same document is a numeric-format error.
    let early = Some(ts("2019-01-01T00:00:00Z"));
    assert_eq!(get_pts(gpx, &None, &early, &None), Err(ParseError::NumericFormat));
}

#[test]
fn tcx_lap_window_short_circuits() {
    let tcx = r#"<?xml version="1.0" encoding="UTF-8"?>
<TrainingCenterDatabase>
 <Activities>
  <Activity>
   <Lap StartTime="2019-11-15T21:54:00Z">
    <Track>
     <Trackpoint>
      <Position>
       <LatitudeDegrees>bogus</LatitudeDegrees>
       <LongitudeDegrees>1.0</LongitudeDegrees>
      </Position>
     </Trackpoint>
    </Track>
   </Lap>
  </Activity>
 </Activities>
</TrainingCenterDatabase>"#;
    let end = Some(ts("2019-01-01T00:00:00Z"));
    assert_eq!(get_pts(tcx, &None, &None, &end).unwrap(), vec![]);
}

#[test]
fn gpx_incomplete_records_dropped() {
    // Three records lack a latitude or longitude; the five complete ones
    // survive, in source order.
    let gpx = r#"<?xml version="1.0" encoding="UTF-8"?>
<gpx version="1.1">
 <trk>
  <trkseg>
   <trkpt lat="1.0" lon="1.0"></trkpt>
   <trkpt lon="2.0"></trkpt>
   <trkpt lat="3.0" lon="3.0"></trkpt>
   <trkpt lat="4.0"></trkpt>
   <trkpt lat="5.0" lon="5.0"></trkpt>
   <trkpt></trkpt>
   <trkpt lat="7.0" lon="7.0"></trkpt>
   <trkpt lat="8.0" lon="8.0"></trkpt>
  </trkseg>
 </trk>
</gpx>
"#;
    let pts = get_pts(gpx, &None, &None, &None).unwrap();
    assert_eq!(pts.len(), 5);
    assert_eq!(pts[0].center.lat, 1_000_000_000);
    assert_eq!(pts[1].center.lat, 3_000_000_000);
    assert_eq!(pts[2].center.lat, 5_000_000_000);
    assert_eq!(pts[3].center.lat, 7_000_000_000);
    assert_eq!(pts[4].center.lat, 8_000_000_000);
}

#[test]
fn tcx_incomplete_records_dropped() {
    let tcx = r#"<?xml version="1.0" encoding="UTF-8"?>
<TrainingCenterDatabase>
 <Activities>
  <Activity>
   <Lap>
    <Track>
     <Trackpoint>
      <Position>
       <LatitudeDegrees>1.0</LatitudeDegrees>
       <LongitudeDegrees>1.0</LongitudeDegrees>
      </Position>
     </Trackpoint>
     <Trackpoint>
      <Position>
       <LatitudeDegrees>2.0</LatitudeDegrees>
      </Position>
     </Trackpoint>
     <Trackpoint>
      <Position>
       <LatitudeDegrees>3.0</LatitudeDegrees>
       <LongitudeDegrees>3.0</LongitudeDegrees>
      </Position>
     </Trackpoint>
    </Track>
   </Lap>
  </Activity>
 </Activities>
</TrainingCenterDatabase>"#;
    let pts = get_pts(tcx, &None, &None, &None).unwrap();
    assert_eq!(pts.len(), 2);
    assert_eq!(pts[0].center.lat, 1_000_000_000);
    assert_eq!(pts[1].center.lat, 3_000_000_000);
}

#[test]
fn gpx_point_outside_segment_is_fatal() {
    // A point record outside its required container is a structural
    // violation, not a partial result.
    let gpx = r#"<?xml version="1.0" encoding="UTF-8"?>
<gpx version="1.1">
 <trk>
  <trkpt lat="1.0" lon="1.0"></trkpt>
 </trk>
</gpx>
"#;
    assert_eq!(get_pts(gpx, &None, &None, &None), Err(ParseError::StructuralViolation));
}

#[test]
fn tcx_point_outside_track_is_fatal() {
    let tcx = r#"<?xml version="1.0" encoding="UTF-8"?>
<TrainingCenterDatabase>
 <Activities>
  <Activity>
   <Trackpoint>
    <Position>
     <LatitudeDegrees>1.0</LatitudeDegrees>
     <LongitudeDegrees>1.0</LongitudeDegrees>
    </Position>
   </Trackpoint>
  </Activity>
 </Activities>
</TrainingCenterDatabase>"#;
    assert_eq!(get_pts(tcx, &None, &None, &None), Err(ParseError::StructuralViolation));
}

#[test]
fn unexpected_root_is_rejected() {
    let doc = r#"<?xml version="1.0" encoding="UTF-8"?>
<kml><Placemark></Placemark></kml>"#;
    assert_eq!(get_pts(doc, &None, &None, &None), Err(ParseError::UnexpectedRoot));
    assert_eq!(get_pts("", &None, &None, &None), Err(ParseError::UnexpectedRoot));
    // A document without the XML declaration is rejected too.
    let bare = r#"<gpx version="1.1"></gpx>"#;
    assert_eq!(get_pts(bare, &None, &None, &None), Err(ParseError::UnexpectedRoot));
}

#[test]
fn malformed_number_is_fatal() {
    let gpx = r#"<?xml version="1.0" encoding="UTF-8"?>
<gpx version="1.1">
 <trk>
  <trkseg>
   <trkpt lat="12.3.4" lon="1.0"></trkpt>
  </trkseg>
 </trk>
</gpx>
"#;
    assert_eq!(get_pts(gpx, &None, &None, &None), Err(ParseError::NumericFormat));
}

#[test]
fn malformed_timestamp_is_fatal() {
    let gpx = r#"<?xml version="1.0" encoding="UTF-8"?>
<gpx version="1.1">
 <trk>
  <trkseg>
   <trkpt lat="1.0" lon="1.0">
    <time>yesterday-ish</time>
   </trkpt>
  </trkseg>
 </trk>
</gpx>
"#;
    assert_eq!(get_pts(gpx, &None, &None, &None), Err(ParseError::NumericFormat));
}

#[test]
fn truncated_document_is_fatal() {
    let gpx = r#"<?xml version="1.0" encoding="UTF-8"?>
<gpx version="1.1">
 <trk>
  <trkseg>
   <trkpt lat="1.0" lon="1.0"></trkpt>"#;
    assert_eq!(get_pts(gpx, &None, &None, &None), Err(ParseError::Truncated));
}

#[test]
fn mismatched_end_tag_is_fatal() {
    let gpx = r#"<?xml version="1.0" encoding="UTF-8"?>
<gpx version="1.1">
 <trk>
  <trkseg></trk></trkseg>
</gpx>
"#;
    assert_eq!(get_pts(gpx, &None, &None, &None), Err(ParseError::StructuralViolation));
}

#[test]
fn point_without_time_is_kept() {
    let gpx = r#"<?xml version="1.0" encoding="UTF-8"?>
<gpx version="1.1">
 <trk>
  <trkseg>
   <trkpt lat="-1.25" lon="0.5"></trkpt>
  </trkseg>
 </trk>
</gpx>
"#;
    assert_eq!(
        get_pts(gpx, &None, &None, &None).unwrap(),
        vec![pt(-1_250_000_000, 500_000_000, None)]
    );
}

#[test]
fn decimal_tokens() {
    assert_eq!(parse_decimal("0"), Some(0));
    assert_eq!(parse_decimal("30.2430140"), Some(30_243_014_000));
    assert_eq!(parse_decimal("-97.8100160"), Some(-97_810_016_000));
    assert_eq!(parse_decimal("+2.25"), Some(2_250_000_000));
    assert_eq!(parse_decimal("5."), Some(5_000_000_000));
    assert_eq!(parse_decimal("180"), Some(180_000_000_000));
    // Digits beyond the ninth fraction place do not contribute.
    assert_eq!(parse_decimal("0.1234567899"), Some(123_456_789));
    assert_eq!(parse_decimal(""), None);
    assert_eq!(parse_decimal("."), None);
    assert_eq!(parse_decimal(".5"), None);
    assert_eq!(parse_decimal("1e5"), None);
    assert_eq!(parse_decimal("12.3.4"), None);
    assert_eq!(parse_decimal("-"), None);
    assert_eq!(parse_decimal("1234567890"), None);
}
