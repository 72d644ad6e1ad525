//! The requests the gateway sends to the sensor.community push API.
//!
//! Every received packet is forwarded as two POSTs: the dust values on
//! `X-Pin: 1` (`P1` is PM10, `P2` is PM2.5) and the climate values on
//! `X-Pin: 11`. The sending itself is left to the caller.

use vstd::prelude::*;
use vstd::string::StringSliceAdditionalSpecFns;
use crate::text::{append_decimal, chars_of, decimal_chars};

verus! {

/// Endpoint used when no other is configured.
pub const DEFAULT_API_URL: &'static str = "https://api.sensor.community/v1/push-sensor-data/";

/// Seconds a push request may take before it is abandoned.
pub const HTTP_TIMEOUT_SECS: u64 = 10;

/// Pin of the dust values.
pub const DUST_PIN: &'static str = "1";

/// Pin of the climate values.
pub const CLIMATE_PIN: &'static str = "11";

pub const BODY_HEAD: &'static str = "{\"software_version\":\"sensor-sensei-0.1\",\"sensordatavalues\":[{\"value_type\":\"";

pub const BODY_VALUE: &'static str = "\",\"value\":\"";

pub const BODY_NEXT: &'static str = "\"},{\"value_type\":\"";

pub const BODY_TAIL: &'static str = "\"}]}";

/// The four readings of a packet, already written as decimal text with one
/// digit after the point.
pub struct ReadingText {
    pub pm25: String,
    pub pm10: String,
    pub temperature: String,
    pub humidity: String,
}

/// One push request: where it goes, whether TLS is used, its headers and body.
pub struct ApiPost {
    pub url: String,
    pub use_https: bool,
    pub timeout_secs: u64,
    pub headers: Vec<(String, String)>,
    pub body: String,
}

/// Client of the push API for one gateway.
pub struct SensorApi {
    chip_id: String,
    base_url: String,
}

impl View for SensorApi {
    /// The sensor id sent in `X-Sensor`, and the endpoint.
    type V = (Seq<char>, Seq<char>);

    closed spec fn view(&self) -> (Seq<char>, Seq<char>) {
        (self.chip_id@, self.base_url@)
    }
}

/// Whether requests to `url` use TLS: the URL starts with `https`.
pub open spec fn is_https_url(url: Seq<char>) -> bool {
    url.len() >= 5 && url.take(5) == seq!['h', 't', 't', 'p', 's']
}

/// A request uses TLS exactly when the endpoint text begins with the five
/// characters `h`, `t`, `t`, `p`, `s`.
pub proof fn lemma_https_exactly_prefix(url: Seq<char>)
    ensures
        is_https_url(url) <==> (url.len() >= 5 && url[0] == 'h' && url[1] == 't' && url[2] == 't'
            && url[3] == 'p' && url[4] == 's'),
{
    if url.len() >= 5 && url[0] == 'h' && url[1] == 't' && url[2] == 't' && url[3] == 'p' && url[4]
        == 's' {
        assert(url.take(5) =~= seq!['h', 't', 't', 'p', 's']);
    }
    if is_https_url(url) {
        assert(url.take(5)[0] == 'h' && url.take(5)[1] == 't' && url.take(5)[2] == 't'
            && url.take(5)[3] == 'p' && url.take(5)[4] == 's');
    }
}

/// The JSON body carrying two values.
pub open spec fn body_spec(
    name1: Seq<char>,
    value1: Seq<char>,
    name2: Seq<char>,
    value2: Seq<char>,
) -> Seq<char> {
    BODY_HEAD@ + name1 + BODY_VALUE@ + value1 + BODY_NEXT@ + name2 + BODY_VALUE@ + value2
        + BODY_TAIL@
}

/// The headers of a request for `pin`, from sensor `chip_id`, carrying `body`.
pub open spec fn headers_spec(pin: Seq<char>, chip_id: Seq<char>, body: Seq<char>) -> Seq<
    (Seq<char>, Seq<char>),
> {
    seq![
        ("Content-Type"@, "application/json"@),
        ("X-Pin"@, pin),
        ("X-Sensor"@, chip_id),
        ("Content-Length"@, decimal_chars(encode_utf8_len(body))),
    ]
}

/// Number of bytes of the UTF-8 encoding of `s`.
pub open spec fn encode_utf8_len(s: Seq<char>) -> nat {
    vstd::utf8::encode_utf8(s).len()
}

/// The text of each header of a request.
pub open spec fn header_views(h: Seq<(String, String)>) -> Seq<(Seq<char>, Seq<char>)> {
    h.map_values(|p: (String, String)| (p.0@, p.1@))
}

/// Whether `post` is the request `api` sends for `pin` with `body`.
pub open spec fn is_post(post: &ApiPost, api: (Seq<char>, Seq<char>), pin: Seq<char>, body: Seq<char>) -> bool {
    &&& post.url@ == api.1
    &&& post.use_https == is_https_url(api.1)
    &&& post.timeout_secs == HTTP_TIMEOUT_SECS
    &&& post.body@ == body
    &&& header_views(post.headers@) == headers_spec(pin, api.0, body)
}

fn body_text(name1: &str, value1: &str, name2: &str, value2: &str) -> (b: String)
    ensures
        b@ == body_spec(name1@, value1@, name2@, value2@),
{
    let mut b = String::from_str(BODY_HEAD);
    b.append(name1);
    b.append(BODY_VALUE);
    b.append(value1);
    b.append(BODY_NEXT);
    b.append(name2);
    b.append(BODY_VALUE);
    b.append(value2);
    b.append(BODY_TAIL);
    b
}

impl SensorApi {
    /// A client for the sensor `chip_id`, pushing to `api_url`, or to
    /// `DEFAULT_API_URL` when none is configured.
    pub fn new(chip_id: String, api_url: Option<String>) -> (api: Self)
        ensures
            api@.0 == chip_id@,
            api@.1 == (match api_url {
                Some(u) => u@,
                None => DEFAULT_API_URL@,
            }),
    {
        let base_url = match api_url {
            Some(u) => u,
            None => String::from_str(DEFAULT_API_URL),
        };
        SensorApi { chip_id, base_url }
    }

    /// The endpoint requests go to.
    pub fn base_url(&self) -> (url: &str)
        ensures
            url@ == self@.1,
    {
        self.base_url.as_str()
    }

    /// Whether requests use TLS (the endpoint starts with `https`).
    pub fn uses_https(&self) -> (https: bool)
        ensures
            https == is_https_url(self@.1),
    {
        let cs = chars_of(self.base_url.as_str());
        let https = cs.len() >= 5 && cs[0] == 'h' && cs[1] == 't' && cs[2] == 't' && cs[3] == 'p'
            && cs[4] == 's';
        proof {
            if cs@.len() >= 5 && !https && cs@.take(5) == seq!['h', 't', 't', 'p', 's'] {
                assert(cs@.take(5)[0] == 'h' && cs@.take(5)[1] == 't' && cs@.take(5)[2] == 't'
                    && cs@.take(5)[3] == 'p' && cs@.take(5)[4] == 's');
            }
            if https {
                assert(cs@.take(5) =~= seq!['h', 't', 't', 'p', 's']);
            }
        }
        https
    }

    /// The request that pushes `body` on `pin`.
    fn post_with_pin(&self, pin: &str, body: String) -> (post: ApiPost)
        ensures
            is_post(&post, self@, pin@, body@),
    {
        let byte_len = body.as_str().as_bytes().len();
        let mut length = String::new();
        append_decimal(&mut length, byte_len as u64);
        let mut headers: Vec<(String, String)> = Vec::new();
        headers.push((String::from_str("Content-Type"), String::from_str("application/json")));
        headers.push((String::from_str("X-Pin"), String::from_str(pin)));
        headers.push((String::from_str("X-Sensor"), String::from_str(self.chip_id.as_str())));
        headers.push((String::from_str("Content-Length"), length));
        proof {
            let views = header_views(headers@);
            let expected = headers_spec(pin@, self@.0, body@);
            assert(views.len() == expected.len());
            assert forall|i: int| 0 <= i < views.len() implies views[i] == expected[i] by {
                assert(views[i] == (headers@[i].0@, headers@[i].1@));
            }
            assert(views =~= expected);
        }
        ApiPost {
            url: String::from_str(self.base_url.as_str()),
            use_https: self.uses_https(),
            timeout_secs: HTTP_TIMEOUT_SECS,
            headers,
            body,
        }
    }

    /// The two requests that forward a packet's readings, in the order they
    /// are sent: the dust values (`P1` = PM10, `P2` = PM2.5) on `X-Pin: 1`,
    /// then temperature and humidity on `X-Pin: 11`.
    pub fn post_sensor_data(&self, readings: &ReadingText) -> (posts: Vec<ApiPost>)
        ensures
            posts@.len() == 2,
            is_post(
                &posts@[0],
                self@,
                DUST_PIN@,
                body_spec("P1"@, readings.pm10@, "P2"@, readings.pm25@),
            ),
            is_post(
                &posts@[1],
                self@,
                CLIMATE_PIN@,
                body_spec("temperature"@, readings.temperature@, "humidity"@, readings.humidity@),
            ),
    {
        let dust = body_text("P1", readings.pm10.as_str(), "P2", readings.pm25.as_str());
        let climate = body_text(
            "temperature",
            readings.temperature.as_str(),
            "humidity",
            readings.humidity.as_str(),
        );
        let mut posts: Vec<ApiPost> = Vec::new();
        posts.push(self.post_with_pin(DUST_PIN, dust));
        posts.push(self.post_with_pin(CLIMATE_PIN, climate));
        posts
    }
}

} // verus!
