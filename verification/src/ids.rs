//! Matroska / EBML element IDs (stored form, length-descriptor bits included) and the
//! element type table.

use std::collections::HashMap;
use vstd::prelude::*;

verus! {

pub const ID_EBML: u64 = 0x1A45DFA3;
pub const ID_EBMLVERSION: u64 = 0x4286;
pub const ID_EBMLREAD_VERSION: u64 = 0x42F7;
pub const ID_EBMLMAX_IDLENGTH: u64 = 0x42F2;
pub const ID_EBMLMAX_SIZE_LENGTH: u64 = 0x42F3;
pub const ID_DOCTYPE: u64 = 0x4282;
pub const ID_DOCTYPE_VERSION: u64 = 0x4287;
pub const ID_DOCTYPE_READ_VERSION: u64 = 0x4285;
pub const ID_DOCTYPE_EXTENSION: u64 = 0x4281;
pub const ID_DOCTYPE_EXTENSION_NAME: u64 = 0x4283;
pub const ID_DOCTYPE_EXTENSION_VERSION: u64 = 0x4284;
pub const ID_CRC32: u64 = 0xBF;
pub const ID_VOID: u64 = 0xEC;
pub const ID_SEGMENT: u64 = 0x18538067;
pub const ID_SEEKHEAD: u64 = 0x114D9B74;
pub const ID_SEEK: u64 = 0x4DBB;
pub const ID_SEEKID: u64 = 0x53AB;
pub const ID_SEEKPOSITION: u64 = 0x53AC;
pub const ID_INFO: u64 = 0x1549A966;
pub const ID_SEGMENTUUID: u64 = 0x73A4;
pub const ID_SEGMENTFILENAME: u64 = 0x7384;
pub const ID_PREVUUID: u64 = 0x3CB923;
pub const ID_PREVFILENAME: u64 = 0x3C83AB;
pub const ID_NEXTUUID: u64 = 0x3EB923;
pub const ID_NEXTFILENAME: u64 = 0x3E83BB;
pub const ID_SEGMENTFAMILY: u64 = 0x4444;
pub const ID_CHAPTERTRANSLATE: u64 = 0x6924;
pub const ID_CHAPTERTRANSLATEID: u64 = 0x69A5;
pub const ID_CHAPTERTRANSLATECODEC: u64 = 0x69BF;
pub const ID_CHAPTERTRANSLATEEDITIONUID: u64 = 0x69FC;
pub const ID_TIMESTAMPSCALE: u64 = 0x2AD7B1;
pub const ID_DURATION: u64 = 0x4489;
pub const ID_DATEUTC: u64 = 0x4461;
pub const ID_TITLE: u64 = 0x7BA9;
pub const ID_MUXINGAPP: u64 = 0x4D80;
pub const ID_WRITINGAPP: u64 = 0x5741;
pub const ID_CLUSTER: u64 = 0x1F43B675;
pub const ID_TIMESTAMP: u64 = 0xE7;
pub const ID_SILENTTRACKS: u64 = 0x5854;
pub const ID_SILENTTRACKNUMBER: u64 = 0x58D7;
pub const ID_POSITION: u64 = 0xA7;
pub const ID_PREVSIZE: u64 = 0xAB;
pub const ID_SIMPLEBLOCK: u64 = 0xA3;
pub const ID_BLOCKGROUP: u64 = 0xA0;
pub const ID_BLOCK: u64 = 0xA1;
pub const ID_BLOCKVIRTUAL: u64 = 0xA2;
pub const ID_BLOCKADDITIONS: u64 = 0x75A1;
pub const ID_BLOCKMORE: u64 = 0xA6;
pub const ID_BLOCKADDITIONAL: u64 = 0xA5;
pub const ID_BLOCKADDID: u64 = 0xEE;
pub const ID_BLOCKDURATION: u64 = 0x9B;
pub const ID_REFERENCEPRIORITY: u64 = 0xFA;
pub const ID_REFERENCEBLOCK: u64 = 0xFB;
pub const ID_REFERENCEVIRTUAL: u64 = 0xFD;
pub const ID_CODECSTATE: u64 = 0xA4;
pub const ID_DISCARDPADDING: u64 = 0x75A2;
pub const ID_SLICES: u64 = 0x8E;
pub const ID_TIMESLICE: u64 = 0xE8;
pub const ID_LACENUMBER: u64 = 0xCC;
pub const ID_FRAMENUMBER: u64 = 0xCD;
pub const ID_BLOCKADDITIONID: u64 = 0xCB;
pub const ID_DELAY: u64 = 0xCE;
pub const ID_SLICEDURATION: u64 = 0xCF;
pub const ID_REFERENCEFRAME: u64 = 0xC8;
pub const ID_REFERENCEOFFSET: u64 = 0xC9;
pub const ID_REFERENCETIMESTAMP: u64 = 0xCA;
pub const ID_ENCRYPTEDBLOCK: u64 = 0xAF;
pub const ID_TRACKS: u64 = 0x1654AE6B;
pub const ID_TRACKENTRY: u64 = 0xAE;
pub const ID_TRACKNUMBER: u64 = 0xD7;
pub const ID_TRACKUID: u64 = 0x73C5;
pub const ID_TRACKTYPE: u64 = 0x83;
pub const ID_FLAGENABLED: u64 = 0xB9;
pub const ID_FLAGDEFAULT: u64 = 0x88;
pub const ID_FLAGFORCED: u64 = 0x55AA;
pub const ID_FLAGHEARINGIMPAIRED: u64 = 0x55AB;
pub const ID_FLAGVISUALIMPAIRED: u64 = 0x55AC;
pub const ID_FLAGTEXTDESCRIPTIONS: u64 = 0x55AD;
pub const ID_FLAGORIGINAL: u64 = 0x55AE;
pub const ID_FLAGCOMMENTARY: u64 = 0x55AF;
pub const ID_FLAGLACING: u64 = 0x9C;
pub const ID_MINCACHE: u64 = 0x6DE7;
pub const ID_MAXCACHE: u64 = 0x6DF8;
pub const ID_DEFAULTDURATION: u64 = 0x23E383;
pub const ID_DEFAULTDECODEDFIELDDURATION: u64 = 0x234E7A;
pub const ID_TRACKTIMESTAMPSCALE: u64 = 0x23314F;
pub const ID_TRACKOFFSET: u64 = 0x537F;
pub const ID_MAXBLOCKADDITIONID: u64 = 0x55EE;
pub const ID_BLOCKADDITIONMAPPING: u64 = 0x41E4;
pub const ID_BLOCKADDIDVALUE: u64 = 0x41F0;
pub const ID_BLOCKADDIDNAME: u64 = 0x41A4;
pub const ID_BLOCKADDIDTYPE: u64 = 0x41E7;
pub const ID_BLOCKADDIDEXTRADATA: u64 = 0x41ED;
pub const ID_NAME: u64 = 0x536E;
pub const ID_LANGUAGE: u64 = 0x22B59C;
pub const ID_LANGUAGEBCP47: u64 = 0x22B59D;
pub const ID_CODECID: u64 = 0x86;
pub const ID_CODECPRIVATE: u64 = 0x63A2;
pub const ID_CODECNAME: u64 = 0x258688;
pub const ID_ATTACHMENTLINK: u64 = 0x7446;
pub const ID_CODECSETTINGS: u64 = 0x3A9697;
pub const ID_CODECINFOURL: u64 = 0x3B4040;
pub const ID_CODECDOWNLOADURL: u64 = 0x26B240;
pub const ID_CODECDECODEALL: u64 = 0xAA;
pub const ID_TRACKOVERLAY: u64 = 0x6FAB;
pub const ID_CODECDELAY: u64 = 0x56AA;
pub const ID_SEEKPREROLL: u64 = 0x56BB;
pub const ID_TRACKTRANSLATE: u64 = 0x6624;
pub const ID_TRACKTRANSLATETRACKID: u64 = 0x66A5;
pub const ID_TRACKTRANSLATECODEC: u64 = 0x66BF;
pub const ID_TRACKTRANSLATEEDITIONUID: u64 = 0x66FC;
pub const ID_VIDEO: u64 = 0xE0;
pub const ID_FLAGINTERLACED: u64 = 0x9A;
pub const ID_FIELDORDER: u64 = 0x9D;
pub const ID_STEREOMODE: u64 = 0x53B8;
pub const ID_ALPHAMODE: u64 = 0x53C0;
pub const ID_OLDSTEREOMODE: u64 = 0x53B9;
pub const ID_PIXELWIDTH: u64 = 0xB0;
pub const ID_PIXELHEIGHT: u64 = 0xBA;
pub const ID_PIXELCROPBOTTOM: u64 = 0x54AA;
pub const ID_PIXELCROPTOP: u64 = 0x54BB;
pub const ID_PIXELCROPLEFT: u64 = 0x54CC;
pub const ID_PIXELCROPRIGHT: u64 = 0x54DD;
pub const ID_DISPLAYWIDTH: u64 = 0x54B0;
pub const ID_DISPLAYHEIGHT: u64 = 0x54BA;
pub const ID_DISPLAYUNIT: u64 = 0x54B2;
pub const ID_ASPECTRATIOTYPE: u64 = 0x54B3;
pub const ID_UNCOMPRESSEDFOURCC: u64 = 0x2EB524;
pub const ID_GAMMAVALUE: u64 = 0x2FB523;
pub const ID_FRAMERATE: u64 = 0x2383E3;
pub const ID_COLOUR: u64 = 0x55B0;
pub const ID_MATRIXCOEFFICIENTS: u64 = 0x55B1;
pub const ID_BITSPERCHANNEL: u64 = 0x55B2;
pub const ID_CHROMASUBSAMPLINGHORZ: u64 = 0x55B3;
pub const ID_CHROMASUBSAMPLINGVERT: u64 = 0x55B4;
pub const ID_CBSUBSAMPLINGHORZ: u64 = 0x55B5;
pub const ID_CBSUBSAMPLINGVERT: u64 = 0x55B6;
pub const ID_CHROMASITINGHORZ: u64 = 0x55B7;
pub const ID_CHROMASITINGVERT: u64 = 0x55B8;
pub const ID_RANGE: u64 = 0x55B9;
pub const ID_TRANSFERCHARACTERISTICS: u64 = 0x55BA;
pub const ID_PRIMARIES: u64 = 0x55BB;
pub const ID_MAXCLL: u64 = 0x55BC;
pub const ID_MAXFALL: u64 = 0x55BD;
pub const ID_MASTERINGMETADATA: u64 = 0x55D0;
pub const ID_PRIMARYRCHROMATICITYX: u64 = 0x55D1;
pub const ID_PRIMARYRCHROMATICITYY: u64 = 0x55D2;
pub const ID_PRIMARYGCHROMATICITYX: u64 = 0x55D3;
pub const ID_PRIMARYGCHROMATICITYY: u64 = 0x55D4;
pub const ID_PRIMARYBCHROMATICITYX: u64 = 0x55D5;
pub const ID_PRIMARYBCHROMATICITYY: u64 = 0x55D6;
pub const ID_WHITEPOINTCHROMATICITYX: u64 = 0x55D7;
pub const ID_WHITEPOINTCHROMATICITYY: u64 = 0x55D8;
pub const ID_LUMINANCEMAX: u64 = 0x55D9;
pub const ID_LUMINANCEMIN: u64 = 0x55DA;
pub const ID_PROJECTION: u64 = 0x7670;
pub const ID_PROJECTIONTYPE: u64 = 0x7671;
pub const ID_PROJECTIONPRIVATE: u64 = 0x7672;
pub const ID_PROJECTIONPOSEYAW: u64 = 0x7673;
pub const ID_PROJECTIONPOSEPITCH: u64 = 0x7674;
pub const ID_PROJECTIONPOSEROLL: u64 = 0x7675;
pub const ID_AUDIO: u64 = 0xE1;
pub const ID_SAMPLINGFREQUENCY: u64 = 0xB5;
pub const ID_OUTPUTSAMPLINGFREQUENCY: u64 = 0x78B5;
pub const ID_CHANNELS: u64 = 0x9F;
pub const ID_CHANNELPOSITIONS: u64 = 0x7D7B;
pub const ID_BITDEPTH: u64 = 0x6264;
pub const ID_EMPHASIS: u64 = 0x52F1;
pub const ID_TRACKOPERATION: u64 = 0xE2;
pub const ID_TRACKCOMBINEPLANES: u64 = 0xE3;
pub const ID_TRACKPLANE: u64 = 0xE4;
pub const ID_TRACKPLANEUID: u64 = 0xE5;
pub const ID_TRACKPLANETYPE: u64 = 0xE6;
pub const ID_TRACKJOINBLOCKS: u64 = 0xE9;
pub const ID_TRACKJOINUID: u64 = 0xED;
pub const ID_TRICKTRACKUID: u64 = 0xC0;
pub const ID_TRICKTRACKSEGMENTUID: u64 = 0xC1;
pub const ID_TRICKTRACKFLAG: u64 = 0xC6;
pub const ID_TRICKMASTERTRACKUID: u64 = 0xC7;
pub const ID_TRICKMASTERTRACKSEGMENTUID: u64 = 0xC4;
pub const ID_CONTENTENCODINGS: u64 = 0x6D80;
pub const ID_CONTENTENCODING: u64 = 0x6240;
pub const ID_CONTENTENCODINGORDER: u64 = 0x5031;
pub const ID_CONTENTENCODINGSCOPE: u64 = 0x5032;
pub const ID_CONTENTENCODINGTYPE: u64 = 0x5033;
pub const ID_CONTENTCOMPRESSION: u64 = 0x5034;
pub const ID_CONTENTCOMPALGO: u64 = 0x4254;
pub const ID_CONTENTCOMPSETTINGS: u64 = 0x4255;
pub const ID_CONTENTENCRYPTION: u64 = 0x5035;
pub const ID_CONTENTENCALGO: u64 = 0x47E1;
pub const ID_CONTENTENCKEYID: u64 = 0x47E2;
pub const ID_CONTENTENCAESSETTINGS: u64 = 0x47E7;
pub const ID_AESSETTINGSCIPHERMODE: u64 = 0x47E8;
pub const ID_CONTENTSIGNATURE: u64 = 0x47E3;
pub const ID_CONTENTSIGKEYID: u64 = 0x47E4;
pub const ID_CONTENTSIGALGO: u64 = 0x47E5;
pub const ID_CONTENTSIGHASHALGO: u64 = 0x47E6;
pub const ID_CUES: u64 = 0x1C53BB6B;
pub const ID_CUEPOINT: u64 = 0xBB;
pub const ID_CUETIME: u64 = 0xB3;
pub const ID_CUETRACKPOSITIONS: u64 = 0xB7;
pub const ID_CUETRACK: u64 = 0xF7;
pub const ID_CUECLUSTERPOSITION: u64 = 0xF1;
pub const ID_CUERELATIVEPOSITION: u64 = 0xF0;
pub const ID_CUEDURATION: u64 = 0xB2;
pub const ID_CUEBLOCKNUMBER: u64 = 0x5378;
pub const ID_CUECODECSTATE: u64 = 0xEA;
pub const ID_CUEREFERENCE: u64 = 0xDB;
pub const ID_CUEREFTIME: u64 = 0x96;
pub const ID_CUEREFCLUSTER: u64 = 0x97;
pub const ID_CUEREFNUMBER: u64 = 0x535F;
pub const ID_CUEREFCODECSTATE: u64 = 0xEB;
pub const ID_ATTACHMENTS: u64 = 0x1941A469;
pub const ID_ATTACHEDFILE: u64 = 0x61A7;
pub const ID_FILEDESCRIPTION: u64 = 0x467E;
pub const ID_FILENAME: u64 = 0x466E;
pub const ID_FILEMEDIATYPE: u64 = 0x4660;
pub const ID_FILEDATA: u64 = 0x465C;
pub const ID_FILEUID: u64 = 0x46AE;
pub const ID_FILEREFERRAL: u64 = 0x4675;
pub const ID_FILEUSEDSTARTTIME: u64 = 0x4661;
pub const ID_FILEUSEDENDTIME: u64 = 0x4662;
pub const ID_CHAPTERS: u64 = 0x1043A770;
pub const ID_EDITIONENTRY: u64 = 0x45B9;
pub const ID_EDITIONUID: u64 = 0x45BC;
pub const ID_EDITIONFLAGHIDDEN: u64 = 0x45BD;
pub const ID_EDITIONFLAGDEFAULT: u64 = 0x45DB;
pub const ID_EDITIONFLAGORDERED: u64 = 0x45DD;
pub const ID_EDITIONDISPLAY: u64 = 0x4520;
pub const ID_EDITIONSTRING: u64 = 0x4521;
pub const ID_EDITIONLANGUAGEIETF: u64 = 0x45E4;
pub const ID_CHAPTERATOM: u64 = 0xB6;
pub const ID_CHAPTERUID: u64 = 0x73C4;
pub const ID_CHAPTERSTRINGUID: u64 = 0x5654;
pub const ID_CHAPTERTIMESTART: u64 = 0x91;
pub const ID_CHAPTERTIMEEND: u64 = 0x92;
pub const ID_CHAPTERFLAGHIDDEN: u64 = 0x98;
pub const ID_CHAPTERFLAGENABLED: u64 = 0x4598;
pub const ID_CHAPTERSEGMENTUUID: u64 = 0x6E67;
pub const ID_CHAPTERSKIPTYPE: u64 = 0x4588;
pub const ID_CHAPTERSEGMENTEDITIONUID: u64 = 0x6EBC;
pub const ID_CHAPTERPHYSICALEQUIV: u64 = 0x63C3;
pub const ID_CHAPTERTRACK: u64 = 0x8F;
pub const ID_CHAPTERTRACKUID: u64 = 0x89;
pub const ID_CHAPTERDISPLAY: u64 = 0x80;
pub const ID_CHAPSTRING: u64 = 0x85;
pub const ID_CHAPLANGUAGE: u64 = 0x437C;
pub const ID_CHAPLANGUAGEBCP47: u64 = 0x437D;
pub const ID_CHAPCOUNTRY: u64 = 0x437E;
pub const ID_CHAPPROCESS: u64 = 0x6944;
pub const ID_CHAPPROCESSCODECID: u64 = 0x6955;
pub const ID_CHAPPROCESSPRIVATE: u64 = 0x450D;
pub const ID_CHAPPROCESSCOMMAND: u64 = 0x6911;
pub const ID_CHAPPROCESSTIME: u64 = 0x6922;
pub const ID_CHAPPROCESSDATA: u64 = 0x6933;
pub const ID_TAGS: u64 = 0x1254C367;
pub const ID_TAG: u64 = 0x7373;
pub const ID_TARGETS: u64 = 0x63C0;
pub const ID_TARGETTYPEVALUE: u64 = 0x68CA;
pub const ID_TARGETTYPE: u64 = 0x63CA;
pub const ID_TAGTRACKUID: u64 = 0x63C5;
pub const ID_TAGEDITIONUID: u64 = 0x63C9;
pub const ID_TAGCHAPTERUID: u64 = 0x63C4;
pub const ID_TAGATTACHMENTUID: u64 = 0x63C6;
pub const ID_TAGBLOCKADDIDVALUE: u64 = 0x63C7;
pub const ID_SIMPLETAG: u64 = 0x67C8;
pub const ID_TAGNAME: u64 = 0x45A3;
pub const ID_TAGLANGUAGE: u64 = 0x447A;
pub const ID_TAGLANGUAGEBCP47: u64 = 0x447B;
pub const ID_TAGDEFAULT: u64 = 0x4484;
pub const ID_TAGDEFAULTBOGUS: u64 = 0x44B4;
pub const ID_TAGSTRING: u64 = 0x4487;
pub const ID_TAGBINARY: u64 = 0x4485;

/// EBML element data types, as named by the EBML schema.
#[derive(Debug, Clone, Copy, PartialEq, Eq, Structural)]
pub enum EbmlType {
    SignedInteger,
    UnsignedInteger,
    Float,
    String,
    UTF8,
    Date,
    Master,
    Binary,
    Void,
    Unsupported,
}

/// One element description from the EBML schema.
#[allow(non_snake_case)]
#[derive(Debug, Clone, PartialEq)]
pub struct Element {
    pub name: String,
    pub path: String,
    pub id: u64,
    pub ebml_type: EbmlType,
    pub default: Option<String>,
    pub minOccurs: Option<i32>,
    pub maxOccurs: Option<i32>,
}

fn copy_opt_string(s: &Option<String>) -> (res: Option<String>)
    ensures
        res == *s,
{
    match s {
        Some(v) => Some(v.clone()),
        None => None,
    }
}

impl Element {
    /// A field-by-field copy of this element.
    pub fn duplicate(&self) -> (res: Element)
        ensures
            res == *self,
    {
        Element {
            name: self.name.clone(),
            path: self.path.clone(),
            id: self.id,
            ebml_type: self.ebml_type,
            default: copy_opt_string(&self.default),
            minOccurs: self.minOccurs,
            maxOccurs: self.maxOccurs,
        }
    }
}

/// Types of the EBML header elements (the part of the table every EBML document shares).
pub open spec fn base_id_types() -> Map<u64, EbmlType> {
    map![
        ID_EBML => EbmlType::Master,
        ID_EBMLVERSION => EbmlType::UnsignedInteger,
        ID_EBMLREAD_VERSION => EbmlType::UnsignedInteger,
        ID_EBMLMAX_IDLENGTH => EbmlType::UnsignedInteger,
        ID_EBMLMAX_SIZE_LENGTH => EbmlType::UnsignedInteger,
        ID_DOCTYPE => EbmlType::String,
        ID_DOCTYPE_VERSION => EbmlType::UnsignedInteger,
        ID_DOCTYPE_READ_VERSION => EbmlType::UnsignedInteger,
        ID_DOCTYPE_EXTENSION => EbmlType::Master,
        ID_DOCTYPE_EXTENSION_NAME => EbmlType::String,
        ID_DOCTYPE_EXTENSION_VERSION => EbmlType::UnsignedInteger,
        ID_CRC32 => EbmlType::Binary,
        ID_VOID => EbmlType::Void
    ]
}

/// The type table for the EBML header elements.
pub fn ebml_base_id_type_map() -> (map: HashMap<u64, EbmlType>)
    ensures
        map@ == base_id_types(),
{
    let mut map: HashMap<u64, EbmlType> = HashMap::new();
    map.insert(ID_EBML, EbmlType::Master);
    map.insert(ID_EBMLVERSION, EbmlType::UnsignedInteger);
    map.insert(ID_EBMLREAD_VERSION, EbmlType::UnsignedInteger);
    map.insert(ID_EBMLMAX_IDLENGTH, EbmlType::UnsignedInteger);
    map.insert(ID_EBMLMAX_SIZE_LENGTH, EbmlType::UnsignedInteger);
    map.insert(ID_DOCTYPE, EbmlType::String);
    map.insert(ID_DOCTYPE_VERSION, EbmlType::UnsignedInteger);
    map.insert(ID_DOCTYPE_READ_VERSION, EbmlType::UnsignedInteger);
    map.insert(ID_DOCTYPE_EXTENSION, EbmlType::Master);
    map.insert(ID_DOCTYPE_EXTENSION_NAME, EbmlType::String);
    map.insert(ID_DOCTYPE_EXTENSION_VERSION, EbmlType::UnsignedInteger);
    map.insert(ID_CRC32, EbmlType::Binary);
    map.insert(ID_VOID, EbmlType::Void);
    proof {
        assert(map@ =~= base_id_types());
    }
    map
}

/// The type table after adding the first `n` schema elements to the base table, a
/// later schema entry overriding an earlier one with the same ID.
pub open spec fn schema_id_types(schema: Seq<Element>, n: nat) -> Map<u64, EbmlType>
    decreases n,
{
    if n == 0 {
        base_id_types()
    } else {
        schema_id_types(schema, (n - 1) as nat).insert(schema[n - 1].id, schema[n - 1].ebml_type)
    }
}

/// The full ID→type table: the EBML header elements plus every schema element.
pub fn element_id_type_map(schema: &Vec<Element>) -> (map: HashMap<u64, EbmlType>)
    ensures
        map@ == schema_id_types(schema@, schema@.len()),
{
    let mut map = ebml_base_id_type_map();
    let mut i: usize = 0;
    while i < schema.len()
        invariant
            i <= schema.len(),
            map@ == schema_id_types(schema@, i as nat),
        decreases schema.len() - i,
    {
        map.insert(schema[i].id, schema[i].ebml_type);
        i += 1;
    }
    map
}

/// The elements of the first `n` schema entries keyed by ID (a later entry wins).
pub open spec fn schema_id_elements(schema: Seq<Element>, n: nat) -> Map<u64, Element>
    decreases n,
{
    if n == 0 {
        Map::empty()
    } else {
        schema_id_elements(schema, (n - 1) as nat).insert(schema[n - 1].id, schema[n - 1])
    }
}

/// Every schema element keyed by its ID.
pub fn element_id_element_map(schema: &Vec<Element>) -> (map: HashMap<u64, Element>)
    ensures
        map@ == schema_id_elements(schema@, schema@.len()),
{
    let mut map: HashMap<u64, Element> = HashMap::new();
    let mut i: usize = 0;
    proof {
        assert(map@ =~= schema_id_elements(schema@, 0));
    }
    while i < schema.len()
        invariant
            i <= schema.len(),
            map@ == schema_id_elements(schema@, i as nat),
        decreases schema.len() - i,
    {
        map.insert(schema[i].id, schema[i].duplicate());
        i += 1;
    }
    map
}

} // verus!
