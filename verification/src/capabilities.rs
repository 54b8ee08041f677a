//! What this solver says it can do.
use crate::encoding::CoefficientEncoding;
use crate::message::{texts, Advertised, Capabilities, GeneratorAlgorithm, JobKind};
use crate::session::BackendIdentity;
use vstd::prelude::*;
use vstd::string::*;

verus! {

/// The session protocol that this solver speaks.
pub const PROTOCOL_VERSION: u32 = 2;

/// Feature name of a backend that uses warm-start states.
pub const INITIAL_SPINS_FEATURE: &'static str = "initial-spins";

/// What a list of static texts says.
pub open spec fn names(list: Seq<&'static str>) -> Seq<Seq<char>> {
    Seq::new(list.len(), |i: int| list[i]@)
}

/// The capabilities of a plain sampler.
pub open spec fn plain(id: BackendIdentity, stream_width: u32) -> Advertised {
    Advertised {
        backend: id.backend@,
        algorithm: id.algorithm.spec_name(),
        supported_kinds: seq![JobKind::IsingSample],
        max_nodes: id.max_nodes,
        max_edges: id.max_edges,
        features: names(id.features@),
        protocol_version: PROTOCOL_VERSION,
        stream_width,
        native_topology_hash: None,
        encodings: seq![CoefficientEncoding::I32],
        generators: seq![],
    }
}

/// The capabilities of a sampler behind a session, which also expands salt
/// ranges.
pub open spec fn full(id: BackendIdentity, stream_width: u32, warm: bool) -> Advertised {
    Advertised {
        supported_kinds: seq![JobKind::IsingSample, JobKind::IsingGenerate],
        features: if warm {
            names(id.features@).push(INITIAL_SPINS_FEATURE@)
        } else {
            names(id.features@)
        },
        generators: seq![GeneratorAlgorithm::Blake3Chacha8V1],
        ..plain(id, stream_width)
    }
}

fn own_texts(list: &[&'static str]) -> (owned: Vec<String>)
    ensures
        texts(owned@) == names(list@),
{
    let mut owned: Vec<String> = Vec::new();
    let mut i: usize = 0;
    while i < list.len()
        invariant
            i <= list@.len(),
            owned@.len() == i,
            forall|k: int| 0 <= k < i ==> (#[trigger] owned@[k])@ == list@[k]@,
        decreases list@.len() - i,
    {
        owned.push(list[i].to_owned());
        i += 1;
    }
    assert(texts(owned@) =~= names(list@));
    owned
}

/// Build this solver's [`Capabilities`] for plain jobs.
#[must_use]
pub fn capabilities(id: &BackendIdentity, stream_width: u32) -> (caps: Capabilities)
    ensures
        caps@ == plain(*id, stream_width),
{
    let mut supported_kinds: Vec<JobKind> = Vec::new();
    supported_kinds.push(JobKind::IsingSample);
    let mut encodings: Vec<CoefficientEncoding> = Vec::new();
    encodings.push(CoefficientEncoding::I32);
    let caps: Capabilities = Capabilities {
        backend: id.backend.to_owned(),
        algorithm: id.algorithm.name().to_owned(),
        supported_kinds,
        max_nodes: id.max_nodes,
        max_edges: id.max_edges,
        features: own_texts(id.features),
        protocol_version: PROTOCOL_VERSION,
        stream_width,
        native_topology_hash: None,
        encodings,
        generators: Vec::new(),
    };
    assert(caps@.supported_kinds =~= seq![JobKind::IsingSample]);
    assert(caps@.encodings =~= seq![CoefficientEncoding::I32]);
    assert(caps@.generators =~= seq![]);
    caps
}

/// The `Capabilities` this solver advertises with its device closed.
///
/// The flag that prints them and the in-session reply are the same message, so
/// both are built here, with the width that the backend declares without an
/// instance.
#[must_use]
pub fn advertised_capabilities(
    id: &BackendIdentity,
    declared_width: u32,
    accepts_warm_start: bool,
) -> (caps: Capabilities)
    ensures
        caps@ == full(*id, declared_width, accepts_warm_start),
{
    let mut caps: Capabilities = capabilities(id, declared_width);
    caps.supported_kinds.push(JobKind::IsingGenerate);
    caps.generators.push(GeneratorAlgorithm::Blake3Chacha8V1);
    if accepts_warm_start {
        let ghost before = caps.features@;
        caps.features.push(INITIAL_SPINS_FEATURE.to_owned());
        assert(texts(caps.features@) =~= texts(before).push(INITIAL_SPINS_FEATURE@));
    }
    assert(caps@.supported_kinds =~= seq![JobKind::IsingSample, JobKind::IsingGenerate]);
    assert(caps@.generators =~= seq![GeneratorAlgorithm::Blake3Chacha8V1]);
    caps
}

/// The width that a session reports: the declared one, or the live one when
/// the backend declares that it depends on the open device.
pub open spec fn session_width(declared_width: u32, live_width: usize) -> u32 {
    if declared_width != 0 {
        declared_width
    } else if live_width > u32::MAX {
        u32::MAX
    } else {
        live_width as u32
    }
}

/// The `Capabilities` the in-session reply carries.
///
/// Identical to [`advertised_capabilities`] except for a backend that declares
/// a width of `0`: it gets the live width, because the session holds the device
/// open.
#[must_use]
pub fn session_capabilities(
    id: &BackendIdentity,
    declared_width: u32,
    live_width: usize,
    accepts_warm_start: bool,
) -> (caps: Capabilities)
    ensures
        caps@ == full(*id, session_width(declared_width, live_width), accepts_warm_start),
{
    let mut caps: Capabilities = advertised_capabilities(id, declared_width, accepts_warm_start);
    if caps.stream_width == 0 {
        caps.stream_width = if live_width as u64 > u32::MAX as u64 {
            u32::MAX
        } else {
            live_width as u32
        };
    }
    caps
}

/// The two answers are the same message whenever the backend declares a width,
/// and differ in the width alone otherwise.
pub proof fn law_both_answers_agree(
    id: BackendIdentity,
    declared_width: u32,
    live_width: usize,
    warm: bool,
)
    ensures
        declared_width != 0 ==> full(id, session_width(declared_width, live_width), warm) == full(
            id,
            declared_width,
            warm,
        ),
        full(id, session_width(declared_width, live_width), warm) == (Advertised {
            stream_width: session_width(declared_width, live_width),
            ..full(id, declared_width, warm)
        }),
{
}

/// Whether the width that a backend declares contradicts its live one. A
/// declared width of `0` contradicts nothing.
#[must_use]
pub fn width_is_misdeclared(declared_width: u32, live_width: usize) -> (wrong: bool)
    ensures
        wrong == (declared_width != 0 && declared_width != live_width),
{
    declared_width != 0 && declared_width as u64 != live_width as u64
}

/// The standard base64 text of `bytes`, with padding.
pub uninterp spec fn base64_standard(bytes: Seq<u8>) -> Seq<char>;

/// Encodes with `base64::Engine::encode` of the standard engine. Claims only
/// that the text is determined by the bytes. Input whose text would not fit in
/// memory is left out.
#[verifier::external_body]
fn encode_base64(bytes: &[u8]) -> (text: String)
    requires
        bytes@.len() <= usize::MAX / 4,
    ensures
        text@ == base64_standard(bytes@),
{
    base64::Engine::encode(&base64::engine::general_purpose::STANDARD, bytes)
}

/// A [`Capabilities`] message as the texts and numbers of its JSON form.
#[derive(Clone, Debug)]
pub struct CapabilitiesFields {
    pub backend: String,
    pub algorithm: String,
    pub supported_kinds: Vec<&'static str>,
    pub max_nodes: u32,
    pub max_edges: u32,
    pub features: Vec<String>,
    pub protocol_version: u32,
    pub stream_width: u32,
    /// Base64, and absent when there is none.
    pub native_topology_hash: Option<String>,
    pub encodings: Vec<&'static str>,
    pub generators: Vec<&'static str>,
}

/// The JSON name of a job kind.
pub open spec fn kind_name(kind: JobKind) -> Seq<char> {
    match kind {
        JobKind::IsingSample => "ISING_SAMPLE"@,
        JobKind::IsingGenerate => "ISING_GENERATE"@,
    }
}

/// The JSON name of an encoding.
pub open spec fn encoding_name(encoding: CoefficientEncoding) -> Seq<char> {
    match encoding {
        CoefficientEncoding::Unspecified => "COEFFICIENT_ENCODING_UNSPECIFIED"@,
        CoefficientEncoding::I8 => "COEFFICIENT_ENCODING_I8"@,
        CoefficientEncoding::I16 => "COEFFICIENT_ENCODING_I16"@,
        CoefficientEncoding::I32 => "COEFFICIENT_ENCODING_I32"@,
        CoefficientEncoding::F16 => "COEFFICIENT_ENCODING_F16"@,
        CoefficientEncoding::F32 => "COEFFICIENT_ENCODING_F32"@,
        CoefficientEncoding::F64 => "COEFFICIENT_ENCODING_F64"@,
    }
}

/// The JSON name of a generator.
pub open spec fn generator_name(generator: GeneratorAlgorithm) -> Seq<char> {
    match generator {
        GeneratorAlgorithm::Blake3Chacha8V1 => "GENERATOR_ALGORITHM_BLAKE3_CHACHA8_V1"@,
    }
}

fn kind_text(kind: JobKind) -> (name: &'static str)
    ensures
        name@ == kind_name(kind),
{
    match kind {
        JobKind::IsingSample => "ISING_SAMPLE",
        JobKind::IsingGenerate => "ISING_GENERATE",
    }
}

fn encoding_text(encoding: CoefficientEncoding) -> (name: &'static str)
    ensures
        name@ == encoding_name(encoding),
{
    match encoding {
        CoefficientEncoding::Unspecified => "COEFFICIENT_ENCODING_UNSPECIFIED",
        CoefficientEncoding::I8 => "COEFFICIENT_ENCODING_I8",
        CoefficientEncoding::I16 => "COEFFICIENT_ENCODING_I16",
        CoefficientEncoding::I32 => "COEFFICIENT_ENCODING_I32",
        CoefficientEncoding::F16 => "COEFFICIENT_ENCODING_F16",
        CoefficientEncoding::F32 => "COEFFICIENT_ENCODING_F32",
        CoefficientEncoding::F64 => "COEFFICIENT_ENCODING_F64",
    }
}

fn generator_text(generator: GeneratorAlgorithm) -> (name: &'static str)
    ensures
        name@ == generator_name(generator),
{
    match generator {
        GeneratorAlgorithm::Blake3Chacha8V1 => "GENERATOR_ALGORITHM_BLAKE3_CHACHA8_V1",
    }
}

/// `fields` says what `caps` says, `hash` being its topology hash in text.
pub open spec fn fields_of(
    fields: CapabilitiesFields,
    caps: Advertised,
    hash: Option<Seq<char>>,
) -> bool {
    &&& fields.backend@ == caps.backend
    &&& fields.algorithm@ == caps.algorithm
    &&& names(fields.supported_kinds@) == caps.supported_kinds.map_values(
        |k: JobKind| kind_name(k),
    )
    &&& fields.max_nodes == caps.max_nodes
    &&& fields.max_edges == caps.max_edges
    &&& texts(fields.features@) == caps.features
    &&& fields.protocol_version == caps.protocol_version
    &&& fields.stream_width == caps.stream_width
    &&& match (fields.native_topology_hash, hash) {
        (None, None) => true,
        (Some(text), Some(want)) => text@ == want,
        _ => false,
    }
    &&& names(fields.encodings@) == caps.encodings.map_values(
        |e: CoefficientEncoding| encoding_name(e),
    )
    &&& names(fields.generators@) == caps.generators.map_values(
        |g: GeneratorAlgorithm| generator_name(g),
    )
}

/// The JSON fields of a [`Capabilities`] message whose topology hash, if it
/// has one, reads `hash`.
#[must_use]
pub fn capabilities_fields_with(caps: Capabilities, hash: Option<String>) -> (fields:
    CapabilitiesFields)
    ensures
        fields_of(
            fields,
            caps@,
            match hash {
                Some(text) => Some(text@),
                None => None,
            },
        ),
{
    let mut supported_kinds: Vec<&'static str> = Vec::new();
    let mut i: usize = 0;
    while i < caps.supported_kinds.len()
        invariant
            i <= caps.supported_kinds@.len(),
            supported_kinds@.len() == i,
            forall|k: int|
                0 <= k < i ==> (#[trigger] supported_kinds@[k])@ == kind_name(
                    caps.supported_kinds@[k],
                ),
        decreases caps.supported_kinds@.len() - i,
    {
        supported_kinds.push(kind_text(caps.supported_kinds[i]));
        i += 1;
    }
    let mut encodings: Vec<&'static str> = Vec::new();
    let mut i: usize = 0;
    while i < caps.encodings.len()
        invariant
            i <= caps.encodings@.len(),
            encodings@.len() == i,
            forall|k: int|
                0 <= k < i ==> (#[trigger] encodings@[k])@ == encoding_name(caps.encodings@[k]),
        decreases caps.encodings@.len() - i,
    {
        encodings.push(encoding_text(caps.encodings[i]));
        i += 1;
    }
    let mut generators: Vec<&'static str> = Vec::new();
    let mut i: usize = 0;
    while i < caps.generators.len()
        invariant
            i <= caps.generators@.len(),
            generators@.len() == i,
            forall|k: int|
                0 <= k < i ==> (#[trigger] generators@[k])@ == generator_name(caps.generators@[k]),
        decreases caps.generators@.len() - i,
    {
        generators.push(generator_text(caps.generators[i]));
        i += 1;
    }
    proof {
        assert(names(supported_kinds@) =~= caps.supported_kinds@.map_values(
            |k: JobKind| kind_name(k),
        ));
        assert(names(encodings@) =~= caps.encodings@.map_values(
            |e: CoefficientEncoding| encoding_name(e),
        ));
        assert(names(generators@) =~= caps.generators@.map_values(
            |g: GeneratorAlgorithm| generator_name(g),
        ));
    }
    CapabilitiesFields {
        backend: caps.backend,
        algorithm: caps.algorithm,
        supported_kinds,
        max_nodes: caps.max_nodes,
        max_edges: caps.max_edges,
        features: caps.features,
        protocol_version: caps.protocol_version,
        stream_width: caps.stream_width,
        native_topology_hash: hash,
        encodings,
        generators,
    }
}

/// The JSON fields of a [`Capabilities`] message. A topology hash reads as
/// base64.
#[must_use]
pub fn capabilities_fields(caps: Capabilities) -> (fields: CapabilitiesFields)
    requires
        caps.native_topology_hash matches Some(hash) ==> hash@.len() <= usize::MAX / 4,
    ensures
        fields_of(
            fields,
            caps@,
            match caps@.native_topology_hash {
                Some(hash) => Some(base64_standard(hash)),
                None => None,
            },
        ),
{
    let hash: Option<String> = match &caps.native_topology_hash {
        Some(bytes) => Some(encode_base64(bytes.as_slice())),
        None => None,
    };
    capabilities_fields_with(caps, hash)
}

/// What a solver says of itself is what its backend is: the backend's name,
/// limits and features, each in its place, both kinds of jobs, the one encoding
/// and the one generator that it takes, and the protocol that it speaks. Only a
/// sampler that uses start states says so, and says it last.
pub proof fn law_capabilities_describe_the_backend(
    id: BackendIdentity,
    stream_width: u32,
    warm: bool,
)
    ensures
        ({
            let caps = full(id, stream_width, warm);
            let count = id.features@.len() as int;
            &&& caps.backend == id.backend@
            &&& caps.algorithm == id.algorithm.spec_name()
            &&& caps.max_nodes == id.max_nodes
            &&& caps.max_edges == id.max_edges
            &&& caps.stream_width == stream_width
            &&& caps.protocol_version == 2
            &&& caps.native_topology_hash is None
            &&& caps.supported_kinds.contains(JobKind::IsingSample)
            &&& caps.supported_kinds.contains(JobKind::IsingGenerate)
            &&& caps.supported_kinds.len() == 2
            &&& caps.encodings == seq![CoefficientEncoding::I32]
            &&& caps.generators == seq![GeneratorAlgorithm::Blake3Chacha8V1]
            &&& forall|i: int| 0 <= i < count ==> #[trigger] caps.features[i] == id.features@[i]@
            &&& warm ==> caps.features.len() == count + 1 && caps.features[count]
                == "initial-spins"@
            &&& !warm ==> caps.features.len() == count
        }),
{
    let kinds = full(id, stream_width, warm).supported_kinds;
    assert(kinds[0] == JobKind::IsingSample);
    assert(kinds[1] == JobKind::IsingGenerate);
}

/// Without a declared width a session reports the live one, as far as 32 bits
/// go.
pub proof fn law_an_undeclared_width_is_the_live_one(live_width: usize)
    ensures
        live_width <= u32::MAX ==> session_width(0, live_width) == live_width,
        live_width > u32::MAX ==> session_width(0, live_width) == u32::MAX,
{
}

/// No two kinds of jobs, encodings or generators share a JSON name, and every
/// list of names has one for each item, in order.
pub proof fn law_names_follow_their_items(
    fields: CapabilitiesFields,
    caps: Advertised,
    hash: Option<Seq<char>>,
    i: int,
)
    requires
        fields_of(fields, caps, hash),
    ensures
        fields.supported_kinds@.len() == caps.supported_kinds.len(),
        fields.encodings@.len() == caps.encodings.len(),
        fields.generators@.len() == caps.generators.len(),
        fields.features@.len() == caps.features.len(),
        0 <= i < caps.supported_kinds.len() ==> fields.supported_kinds@[i]@ == kind_name(
            caps.supported_kinds[i],
        ),
        0 <= i < caps.encodings.len() ==> fields.encodings@[i]@ == encoding_name(
            caps.encodings[i],
        ),
        0 <= i < caps.features.len() ==> fields.features@[i]@ == caps.features[i],
        fields.backend@ == caps.backend,
        fields.algorithm@ == caps.algorithm,
        fields.max_nodes == caps.max_nodes,
        fields.max_edges == caps.max_edges,
        fields.stream_width == caps.stream_width,
        fields.protocol_version == caps.protocol_version,
{
    let kinds = caps.supported_kinds.map_values(|k: JobKind| kind_name(k));
    let encodings = caps.encodings.map_values(|e: CoefficientEncoding| encoding_name(e));
    assert(names(fields.supported_kinds@).len() == kinds.len());
    assert(names(fields.encodings@).len() == encodings.len());
    assert(names(fields.generators@).len() == caps.generators.len());
    assert(texts(fields.features@).len() == caps.features.len());
    if 0 <= i < caps.supported_kinds.len() {
        assert(names(fields.supported_kinds@)[i] == kinds[i]);
    }
    if 0 <= i < caps.encodings.len() {
        assert(names(fields.encodings@)[i] == encodings[i]);
    }
    if 0 <= i < caps.features.len() {
        assert(texts(fields.features@)[i] == caps.features[i]);
    }
}

} // verus!
