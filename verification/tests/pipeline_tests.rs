//! Tests of the full decode pipeline on a real manifest object.

use rpki_manifest::{cms_signing_time, Manifest};

/// A real RPKI manifest: a CMS signed object holding two file entries.
const SAMPLE: [u8; 1980] = [
    0x30, 0x80, 0x06, 0x09, 0x2A, 0x86, 0x48, 0x86, 0xF7, 0x0D, 0x01, 0x07, 0x02, 0xA0, 0x80, 0x30,
    0x80, 0x02, 0x01, 0x03, 0x31, 0x0F, 0x30, 0x0D, 0x06, 0x09, 0x60, 0x86, 0x48, 0x01, 0x65, 0x03,
    0x04, 0x02, 0x01, 0x05, 0x00, 0x30, 0x80, 0x06, 0x0B, 0x2A, 0x86, 0x48, 0x86, 0xF7, 0x0D, 0x01,
    0x09, 0x10, 0x01, 0x1A, 0xA0, 0x80, 0x24, 0x80, 0x04, 0x82, 0x01, 0x0A, 0x30, 0x82, 0x01, 0x06,
    0x02, 0x02, 0x06, 0xA9, 0x18, 0x0F, 0x32, 0x30, 0x31, 0x39, 0x30, 0x34, 0x30, 0x36, 0x30, 0x39,
    0x33, 0x35, 0x34, 0x39, 0x5A, 0x18, 0x0F, 0x32, 0x30, 0x31, 0x39, 0x30, 0x34, 0x30, 0x37, 0x30,
    0x39, 0x33, 0x35, 0x34, 0x39, 0x5A, 0x06, 0x09, 0x60, 0x86, 0x48, 0x01, 0x65, 0x03, 0x04, 0x02,
    0x01, 0x30, 0x81, 0xD2, 0x30, 0x44, 0x16, 0x1F, 0x48, 0x47, 0x70, 0x31, 0x41, 0x45, 0x53, 0x4C,
    0x62, 0x79, 0x69, 0x6F, 0x70, 0x53, 0x63, 0x47, 0x79, 0x37, 0x79, 0x57, 0x34, 0x62, 0x36, 0x73,
    0x5F, 0x54, 0x34, 0x2E, 0x63, 0x65, 0x72, 0x03, 0x21, 0x00, 0x2A, 0xEB, 0x9A, 0xCB, 0x76, 0x8E,
    0x0E, 0xBF, 0x49, 0xC5, 0xFC, 0x94, 0x78, 0x3D, 0x33, 0x4E, 0x0F, 0xDE, 0xBB, 0x08, 0xE5, 0xA6,
    0x10, 0xA5, 0xB4, 0x55, 0xE2, 0x90, 0x59, 0x8D, 0xA1, 0x4A, 0x30, 0x44, 0x16, 0x1F, 0x4B, 0x6E,
    0x33, 0x52, 0x31, 0x34, 0x66, 0x58, 0x6B, 0x2D, 0x54, 0x49, 0x72, 0x31, 0x62, 0x68, 0x6C, 0x39,
    0x54, 0x75, 0x32, 0x53, 0x72, 0x32, 0x75, 0x68, 0x4D, 0x2E, 0x63, 0x72, 0x6C, 0x03, 0x21, 0x00,
    0x74, 0xA6, 0x4C, 0x6B, 0x3E, 0x1F, 0x4B, 0xC6, 0x6D, 0xFF, 0x06, 0x7F, 0x8E, 0x5F, 0xD7, 0x53,
    0xD5, 0x7A, 0x32, 0x2C, 0xD4, 0x03, 0x3F, 0x30, 0xEF, 0xBA, 0x06, 0x50, 0x4A, 0x84, 0x41, 0xA1,
    0x30, 0x44, 0x16, 0x1F, 0x71, 0x4D, 0x5F, 0x6A, 0x72, 0x61, 0x6C, 0x63, 0x4C, 0x65, 0x65, 0x31,
    0x41, 0x38, 0x6E, 0x64, 0x49, 0x42, 0x36, 0x52, 0x39, 0x72, 0x39, 0x4A, 0x7A, 0x38, 0x41, 0x2E,
    0x63, 0x65, 0x72, 0x03, 0x21, 0x00, 0x51, 0xDE, 0x15, 0xE8, 0x94, 0x00, 0x16, 0x90, 0xA2, 0xB7,
    0xEE, 0x1D, 0xF6, 0xE9, 0xCA, 0x28, 0xBA, 0x9E, 0x95, 0x11, 0xCE, 0xB5, 0xDC, 0x56, 0x15, 0xE0,
    0x2C, 0xBF, 0x05, 0x22, 0x2D, 0x1D, 0x00, 0x00, 0x00, 0x00, 0x00, 0x00, 0xA0, 0x80, 0x30, 0x82,
    0x04, 0xB2, 0x30, 0x82, 0x03, 0x9A, 0xA0, 0x03, 0x02, 0x01, 0x02, 0x02, 0x04, 0x05, 0x9E, 0x37,
    0x1D, 0x30, 0x0D, 0x06, 0x09, 0x2A, 0x86, 0x48, 0x86, 0xF7, 0x0D, 0x01, 0x01, 0x0B, 0x05, 0x00,
    0x30, 0x33, 0x31, 0x31, 0x30, 0x2F, 0x06, 0x03, 0x55, 0x04, 0x03, 0x13, 0x28, 0x32, 0x61, 0x37,
    0x64, 0x64, 0x31, 0x64, 0x37, 0x38, 0x37, 0x64, 0x37, 0x39, 0x33, 0x65, 0x34, 0x63, 0x38, 0x61,
    0x66, 0x35, 0x36, 0x65, 0x31, 0x39, 0x37, 0x64, 0x34, 0x65, 0x65, 0x64, 0x39, 0x32, 0x61, 0x66,
    0x36, 0x62, 0x61, 0x31, 0x33, 0x30, 0x1E, 0x17, 0x0D, 0x31, 0x39, 0x30, 0x34, 0x30, 0x36, 0x30,
    0x39, 0x33, 0x30, 0x34, 0x39, 0x5A, 0x17, 0x0D, 0x31, 0x39, 0x30, 0x34, 0x31, 0x33, 0x30, 0x39,
    0x33, 0x35, 0x34, 0x39, 0x5A, 0x30, 0x33, 0x31, 0x31, 0x30, 0x2F, 0x06, 0x03, 0x55, 0x04, 0x03,
    0x13, 0x28, 0x31, 0x61, 0x30, 0x33, 0x30, 0x62, 0x38, 0x37, 0x38, 0x33, 0x64, 0x64, 0x63, 0x61,
    0x33, 0x66, 0x32, 0x30, 0x39, 0x65, 0x37, 0x35, 0x35, 0x63, 0x33, 0x37, 0x32, 0x65, 0x65, 0x63,
    0x64, 0x34, 0x34, 0x39, 0x36, 0x37, 0x65, 0x62, 0x31, 0x35, 0x30, 0x82, 0x01, 0x22, 0x30, 0x0D,
    0x06, 0x09, 0x2A, 0x86, 0x48, 0x86, 0xF7, 0x0D, 0x01, 0x01, 0x01, 0x05, 0x00, 0x03, 0x82, 0x01,
    0x0F, 0x00, 0x30, 0x82, 0x01, 0x0A, 0x02, 0x82, 0x01, 0x01, 0x00, 0x98, 0x27, 0xD9, 0x4F, 0xC3,
    0xC8, 0x12, 0x16, 0x1F, 0xE9, 0x68, 0xB0, 0x99, 0xDD, 0x2A, 0xAE, 0xDD, 0xF0, 0x9A, 0x76, 0x0B,
    0xE6, 0x99, 0x3D, 0xE3, 0xC5, 0x9D, 0x94, 0x2A, 0x08, 0xD0, 0x5B, 0x9D, 0x0F, 0xD3, 0x13, 0x02,
    0x44, 0x36, 0x45, 0x41, 0x70, 0x4E, 0x4D, 0x64, 0xAF, 0x7A, 0xE8, 0x0D, 0xC7, 0xF3, 0xEB, 0x65,
    0xA1, 0xE6, 0x85, 0x9C, 0x6E, 0x50, 0xEB, 0x40, 0xA5, 0xB1, 0x88, 0x44, 0xC4, 0x32, 0xD3, 0x1F,
    0x4B, 0x19, 0xF5, 0x45, 0x24, 0x0D, 0x4E, 0x12, 0x60, 0xD3, 0x93, 0xED, 0x5F, 0x80, 0x3E, 0x1C,
    0x6A, 0x39, 0x51, 0x67, 0x1D, 0xDD, 0x69, 0x24, 0xCC, 0xA1, 0x7D, 0xF2, 0x02, 0x0E, 0x6D, 0x01,
    0x2B, 0x0D, 0xA0, 0xF0, 0x9A, 0x4B, 0x33, 0x09, 0xC1, 0x21, 0x55, 0xF0, 0x3A, 0x8C, 0xFB, 0xCE,
    0x41, 0xC4, 0x20, 0xA4, 0x13, 0x47, 0xA7, 0x59, 0xF1, 0x62, 0xA4, 0xCC, 0xF6, 0x90, 0x06, 0x9D,
    0xE1, 0xF9, 0x8D, 0x53, 0xCD, 0x10, 0x3A, 0x19, 0x5B, 0x84, 0x4C, 0x5E, 0xAB, 0xAC, 0x8B, 0x64,
    0x4D, 0x9F, 0x9A, 0x25, 0x6B, 0x8C, 0xF7, 0x66, 0x5D, 0x61, 0x8F, 0x93, 0x96, 0xCA, 0x1B, 0x32,
    0xF7, 0x6A, 0x2C, 0x42, 0x3A, 0x10, 0x99, 0x62, 0xA8, 0xA0, 0x5A, 0xEE, 0x15, 0xB1, 0x99, 0x06,
    0xCA, 0xC8, 0x17, 0x95, 0xBC, 0xC3, 0x9F, 0xB7, 0x5B, 0x21, 0x78, 0x61, 0x28, 0x35, 0xF1, 0x8F,
    0xEA, 0x8F, 0xC8, 0x5A, 0x8F, 0xAD, 0x28, 0x35, 0x68, 0x45, 0x43, 0xA5, 0x7A, 0xEC, 0x50, 0x4C,
    0x0C, 0x22, 0x6E, 0x31, 0x23, 0x5F, 0x5D, 0x30, 0x8A, 0xBD, 0x7A, 0x0A, 0x56, 0xA1, 0x02, 0x4A,
    0xFB, 0xAF, 0x4C, 0x1B, 0xBC, 0xDF, 0xA4, 0x08, 0xE7, 0x94, 0xD7, 0x85, 0x19, 0xAD, 0xCF, 0x89,
    0x82, 0x05, 0x2D, 0x6C, 0x1A, 0xBF, 0xA7, 0x31, 0x13, 0xE6, 0x7B, 0x02, 0x03, 0x01, 0x00, 0x01,
    0xA3, 0x82, 0x01, 0xCC, 0x30, 0x82, 0x01, 0xC8, 0x30, 0x1D, 0x06, 0x03, 0x55, 0x1D, 0x0E, 0x04,
    0x16, 0x04, 0x14, 0x1A, 0x03, 0x0B, 0x87, 0x83, 0xDD, 0xCA, 0x3F, 0x20, 0x9E, 0x75, 0x5C, 0x37,
    0x2E, 0xEC, 0xD4, 0x49, 0x67, 0xEB, 0x15, 0x30, 0x1F, 0x06, 0x03, 0x55, 0x1D, 0x23, 0x04, 0x18,
    0x30, 0x16, 0x80, 0x14, 0x2A, 0x7D, 0xD1, 0xD7, 0x87, 0xD7, 0x93, 0xE4, 0xC8, 0xAF, 0x56, 0xE1,
    0x97, 0xD4, 0xEE, 0xD9, 0x2A, 0xF6, 0xBA, 0x13, 0x30, 0x0E, 0x06, 0x03, 0x55, 0x1D, 0x0F, 0x01,
    0x01, 0xFF, 0x04, 0x04, 0x03, 0x02, 0x07, 0x80, 0x30, 0x69, 0x06, 0x08, 0x2B, 0x06, 0x01, 0x05,
    0x05, 0x07, 0x01, 0x01, 0x04, 0x5D, 0x30, 0x5B, 0x30, 0x59, 0x06, 0x08, 0x2B, 0x06, 0x01, 0x05,
    0x05, 0x07, 0x30, 0x02, 0x86, 0x4D, 0x72, 0x73, 0x79, 0x6E, 0x63, 0x3A, 0x2F, 0x2F, 0x72, 0x70,
    0x6B, 0x69, 0x2E, 0x72, 0x69, 0x70, 0x65, 0x2E, 0x6E, 0x65, 0x74, 0x2F, 0x72, 0x65, 0x70, 0x6F,
    0x73, 0x69, 0x74, 0x6F, 0x72, 0x79, 0x2F, 0x32, 0x61, 0x37, 0x64, 0x64, 0x31, 0x64, 0x37, 0x38,
    0x37, 0x64, 0x37, 0x39, 0x33, 0x65, 0x34, 0x63, 0x38, 0x61, 0x66, 0x35, 0x36, 0x65, 0x31, 0x39,
    0x37, 0x64, 0x34, 0x65, 0x65, 0x64, 0x39, 0x32, 0x61, 0x66, 0x36, 0x62, 0x61, 0x31, 0x33, 0x2E,
    0x63, 0x65, 0x72, 0x30, 0x60, 0x06, 0x08, 0x2B, 0x06, 0x01, 0x05, 0x05, 0x07, 0x01, 0x0B, 0x04,
    0x54, 0x30, 0x52, 0x30, 0x50, 0x06, 0x08, 0x2B, 0x06, 0x01, 0x05, 0x05, 0x07, 0x30, 0x0B, 0x86,
    0x44, 0x72, 0x73, 0x79, 0x6E, 0x63, 0x3A, 0x2F, 0x2F, 0x72, 0x70, 0x6B, 0x69, 0x2E, 0x72, 0x69,
    0x70, 0x65, 0x2E, 0x6E, 0x65, 0x74, 0x2F, 0x72, 0x65, 0x70, 0x6F, 0x73, 0x69, 0x74, 0x6F, 0x72,
    0x79, 0x2F, 0x61, 0x63, 0x61, 0x2F, 0x4B, 0x6E, 0x33, 0x52, 0x31, 0x34, 0x66, 0x58, 0x6B, 0x2D,
    0x54, 0x49, 0x72, 0x31, 0x62, 0x68, 0x6C, 0x39, 0x54, 0x75, 0x32, 0x53, 0x72, 0x32, 0x75, 0x68,
    0x4D, 0x2E, 0x6D, 0x66, 0x74, 0x30, 0x55, 0x06, 0x03, 0x55, 0x1D, 0x1F, 0x04, 0x4E, 0x30, 0x4C,
    0x30, 0x4A, 0xA0, 0x48, 0xA0, 0x46, 0x86, 0x44, 0x72, 0x73, 0x79, 0x6E, 0x63, 0x3A, 0x2F, 0x2F,
    0x72, 0x70, 0x6B, 0x69, 0x2E, 0x72, 0x69, 0x70, 0x65, 0x2E, 0x6E, 0x65, 0x74, 0x2F, 0x72, 0x65,
    0x70, 0x6F, 0x73, 0x69, 0x74, 0x6F, 0x72, 0x79, 0x2F, 0x61, 0x63, 0x61, 0x2F, 0x4B, 0x6E, 0x33,
    0x52, 0x31, 0x34, 0x66, 0x58, 0x6B, 0x2D, 0x54, 0x49, 0x72, 0x31, 0x62, 0x68, 0x6C, 0x39, 0x54,
    0x75, 0x32, 0x53, 0x72, 0x32, 0x75, 0x68, 0x4D, 0x2E, 0x63, 0x72, 0x6C, 0x30, 0x18, 0x06, 0x03,
    0x55, 0x1D, 0x20, 0x01, 0x01, 0xFF, 0x04, 0x0E, 0x30, 0x0C, 0x30, 0x0A, 0x06, 0x08, 0x2B, 0x06,
    0x01, 0x05, 0x05, 0x07, 0x0E, 0x02, 0x30, 0x21, 0x06, 0x08, 0x2B, 0x06, 0x01, 0x05, 0x05, 0x07,
    0x01, 0x07, 0x01, 0x01, 0xFF, 0x04, 0x12, 0x30, 0x10, 0x30, 0x06, 0x04, 0x02, 0x00, 0x01, 0x05,
    0x00, 0x30, 0x06, 0x04, 0x02, 0x00, 0x02, 0x05, 0x00, 0x30, 0x15, 0x06, 0x08, 0x2B, 0x06, 0x01,
    0x05, 0x05, 0x07, 0x01, 0x08, 0x01, 0x01, 0xFF, 0x04, 0x06, 0x30, 0x04, 0xA0, 0x02, 0x05, 0x00,
    0x30, 0x0D, 0x06, 0x09, 0x2A, 0x86, 0x48, 0x86, 0xF7, 0x0D, 0x01, 0x01, 0x0B, 0x05, 0x00, 0x03,
    0x82, 0x01, 0x01, 0x00, 0x30, 0x96, 0xEE, 0x8A, 0xC3, 0x76, 0x37, 0x7F, 0x5E, 0x82, 0xB4, 0xE0,
    0xAB, 0x53, 0x22, 0x94, 0xDC, 0x32, 0x3A, 0x65, 0xC3, 0x4D, 0x34, 0xBD, 0xB7, 0xEA, 0xD5, 0x57,
    0x6B, 0xD2, 0x4B, 0x3F, 0x9E, 0x59, 0xC6, 0xD7, 0xF6, 0x79, 0xCB, 0x31, 0xAD, 0xE6, 0xF8, 0xD8,
    0xB8, 0x34, 0xB0, 0xB9, 0xCB, 0x4C, 0x45, 0x38, 0x96, 0x92, 0x79, 0xB4, 0x1A, 0xD6, 0x75, 0x00,
    0xA2, 0x3E, 0x8F, 0x40, 0x48, 0xD4, 0x97, 0x53, 0xA5, 0x8E, 0x73, 0x12, 0xE3, 0x63, 0xAB, 0xE2,
    0x2B, 0xE7, 0x8F, 0x82, 0x88, 0xD6, 0x50, 0xA9, 0x05, 0x3B, 0x64, 0x4B, 0x17, 0xA9, 0x6A, 0x42,
    0xAA, 0xB6, 0x7C, 0x42, 0x97, 0x40, 0x2A, 0xF2, 0xAC, 0x35, 0xA1, 0xCA, 0xA7, 0x5E, 0xC8, 0xD2,
    0xCB, 0xA9, 0x76, 0x7A, 0xA0, 0xF4, 0xB6, 0x23, 0x32, 0x4B, 0xF9, 0x8F, 0xC1, 0x35, 0xFB, 0x4B,
    0x1E, 0x70, 0xAB, 0x03, 0xAE, 0x8E, 0x34, 0x0F, 0x5D, 0x85, 0x96, 0x16, 0x88, 0x99, 0x79, 0x7F,
    0x70, 0x64, 0x9E, 0xAC, 0x57, 0x21, 0x50, 0x07, 0xD4, 0x8A, 0xE1, 0x0A, 0xA3, 0xB4, 0xED, 0x46,
    0xBD, 0x82, 0x9F, 0x34, 0x26, 0xC6, 0xF2, 0xDB, 0x9B, 0xA1, 0xB0, 0x2C, 0x59, 0x75, 0x30, 0x01,
    0xF6, 0x0A, 0x8B, 0xE6, 0xC2, 0xD0, 0x1A, 0xB2, 0x11, 0x25, 0x28, 0xB0, 0x09, 0x7D, 0xF8, 0x63,
    0xB0, 0x9A, 0x51, 0x32, 0x29, 0xDC, 0x08, 0x5E, 0x39, 0xFE, 0xC5, 0x39, 0x8E, 0xD1, 0xD0, 0x51,
    0x80, 0xC6, 0x7A, 0xD4, 0x0F, 0x0C, 0xBB, 0x76, 0xC6, 0xF1, 0x2D, 0x9C, 0xA3, 0x94, 0x7D, 0x7C,
    0x64, 0x58, 0x04, 0x2B, 0xB8, 0x57, 0x54, 0xB3, 0x14, 0x31, 0x70, 0x10, 0x8C, 0xEA, 0xF3, 0x45,
    0x3B, 0x61, 0xFE, 0x9C, 0x3A, 0xD4, 0x94, 0xF8, 0x9B, 0xBC, 0xD3, 0x63, 0x2C, 0xC9, 0xAC, 0x5E,
    0x66, 0x21, 0x6B, 0x04, 0x00, 0x00, 0x31, 0x82, 0x01, 0xAC, 0x30, 0x82, 0x01, 0xA8, 0x02, 0x01,
    0x03, 0x80, 0x14, 0x1A, 0x03, 0x0B, 0x87, 0x83, 0xDD, 0xCA, 0x3F, 0x20, 0x9E, 0x75, 0x5C, 0x37,
    0x2E, 0xEC, 0xD4, 0x49, 0x67, 0xEB, 0x15, 0x30, 0x0D, 0x06, 0x09, 0x60, 0x86, 0x48, 0x01, 0x65,
    0x03, 0x04, 0x02, 0x01, 0x05, 0x00, 0xA0, 0x6B, 0x30, 0x1A, 0x06, 0x09, 0x2A, 0x86, 0x48, 0x86,
    0xF7, 0x0D, 0x01, 0x09, 0x03, 0x31, 0x0D, 0x06, 0x0B, 0x2A, 0x86, 0x48, 0x86, 0xF7, 0x0D, 0x01,
    0x09, 0x10, 0x01, 0x1A, 0x30, 0x1C, 0x06, 0x09, 0x2A, 0x86, 0x48, 0x86, 0xF7, 0x0D, 0x01, 0x09,
    0x05, 0x31, 0x0F, 0x17, 0x0D, 0x31, 0x39, 0x30, 0x34, 0x30, 0x36, 0x30, 0x39, 0x33, 0x30, 0x34,
    0x39, 0x5A, 0x30, 0x2F, 0x06, 0x09, 0x2A, 0x86, 0x48, 0x86, 0xF7, 0x0D, 0x01, 0x09, 0x04, 0x31,
    0x22, 0x04, 0x20, 0xEA, 0x06, 0x5E, 0x8A, 0xB9, 0x0D, 0x89, 0x06, 0xEE, 0x34, 0x0B, 0x3B, 0xEA,
    0x3D, 0xAA, 0x67, 0x5A, 0x1D, 0x86, 0x58, 0x5B, 0xE7, 0x77, 0x6D, 0xB4, 0x14, 0xF6, 0x65, 0x19,
    0x78, 0xED, 0xBB, 0x30, 0x0D, 0x06, 0x09, 0x2A, 0x86, 0x48, 0x86, 0xF7, 0x0D, 0x01, 0x01, 0x0B,
    0x05, 0x00, 0x04, 0x82, 0x01, 0x00, 0x02, 0x3A, 0x4D, 0x20, 0x5A, 0x05, 0x52, 0x69, 0xB1, 0x9D,
    0xC0, 0xE0, 0xBD, 0x0F, 0xE6, 0x48, 0x0B, 0xEE, 0xF8, 0xF5, 0xF9, 0xB8, 0x66, 0x6A, 0x95, 0x20,
    0x2F, 0x06, 0xB2, 0x48, 0xDB, 0x03, 0xD9, 0xA9, 0x87, 0x0B, 0xB1, 0x1A, 0x01, 0x2B, 0x81, 0x9E,
    0x62, 0xAB, 0xCA, 0x0D, 0x30, 0x36, 0xF8, 0x7D, 0x34, 0xC1, 0xD0, 0xE4, 0x6B, 0x0F, 0xE4, 0xD3,
    0xEE, 0xDF, 0x37, 0x5B, 0x96, 0x03, 0x10, 0xBD, 0xD1, 0x30, 0xFC, 0x50, 0xF8, 0x0F, 0x81, 0x84,
    0x84, 0x01, 0x51, 0x5B, 0x6D, 0x89, 0x1C, 0x69, 0x51, 0xC0, 0x81, 0x19, 0x66, 0x4B, 0x00, 0xE9,
    0x26, 0x52, 0x5E, 0x7C, 0x94, 0xDC, 0xCB, 0x1B, 0x7A, 0x76, 0x16, 0x73, 0xAD, 0x26, 0x40, 0xBE,
    0xA5, 0xE9, 0xED, 0xF0, 0xDC, 0x50, 0xBC, 0xB7, 0x97, 0xBA, 0xB1, 0x3D, 0x38, 0xBA, 0xBD, 0x21,
    0xC4, 0xF9, 0x08, 0x52, 0x3B, 0x39, 0x9A, 0xC8, 0xF9, 0xCD, 0xC3, 0xFA, 0xEC, 0x82, 0x30, 0xDA,
    0xD5, 0x15, 0x35, 0xF2, 0xF5, 0xD3, 0x56, 0xC1, 0x12, 0x18, 0xB4, 0xD0, 0x61, 0x89, 0x4D, 0xFA,
    0xB6, 0x3A, 0xBA, 0x44, 0x07, 0x74, 0xBA, 0xDA, 0x7B, 0x84, 0x47, 0xFF, 0xA9, 0x48, 0xB4, 0xD6,
    0xA2, 0x4C, 0x1B, 0xA4, 0xB5, 0xAE, 0x21, 0x8C, 0x4B, 0x65, 0x8F, 0x43, 0xD2, 0xA0, 0xBC, 0x4E,
    0x6F, 0xA6, 0x54, 0x63, 0xE8, 0xC8, 0x06, 0xCC, 0x10, 0x32, 0xEF, 0x88, 0x98, 0xCA, 0x17, 0x6E,
    0x39, 0xA6, 0x68, 0x30, 0xA7, 0x77, 0x25, 0x48, 0x29, 0x0F, 0x3C, 0xD5, 0xFF, 0xE7, 0x82, 0x18,
    0x86, 0xB3, 0xB6, 0x49, 0xF4, 0x83, 0xE8, 0xE7, 0xB9, 0x1B, 0x37, 0xBD, 0x97, 0xBC, 0x46, 0xD3,
    0xAF, 0x75, 0xF5, 0x65, 0x2F, 0x15, 0x7D, 0x6F, 0x69, 0x9B, 0x2D, 0x61, 0xAD, 0x58, 0xD4, 0x1B,
    0x6F, 0xB1, 0xF0, 0x63, 0x10, 0x77, 0x00, 0x00, 0x00, 0x00, 0x00, 0x00,
];

#[test]
fn decodes_real_manifest() {
    let m = Manifest::from_content(&SAMPLE).expect("the sample manifest decodes");
    assert_eq!(m.manifest_number.magnitude, vec![0x06, 0xA9]);
    assert_eq!(m.this_update, 1554543349);
    assert_eq!(m.next_update, 1554629749);
    assert_eq!(m.ski.len(), 20);
    if let Some(aki) = &m.aki {
        assert_eq!(aki.len(), 20);
    }
    if let Some(sia) = &m.sia {
        assert!(sia.starts_with("rsync://"));
    }
    assert_eq!(m.__len__(), 3);
    let names = [
        "HGp1AESLbyiopScGy7yW4b6s_T4.cer",
        "Kn3R14fXk-TIr1bhl9Tu2Sr2uhM.crl",
        "qM_jralcLee1A8ndIB6R9r9Jz8A.cer",
    ];
    for (i, name) in names.iter().enumerate() {
        let e = m.__getitem__(i).expect("in range");
        assert_eq!(&e.file, name);
        assert_eq!(e.hash.len(), 32);
    }
    assert_eq!(
        m.__getitem__(0).expect("in range").hash[..4],
        [0x2A, 0xEB, 0x9A, 0xCB]
    );
}

#[test]
fn decoding_real_manifest_twice_gives_equal_values() {
    let a = Manifest::from_content(&SAMPLE).expect("decodes");
    let b = Manifest::from_content(&SAMPLE).expect("decodes");
    assert!(a == b);
}

#[test]
fn signing_time_matches_full_decode() {
    let m = Manifest::from_content(&SAMPLE).expect("decodes");
    assert_eq!(cms_signing_time(&SAMPLE), m.signing_time);
}

#[test]
fn truncated_object_never_decodes() {
    assert!(Manifest::from_content(&SAMPLE).is_some());
    for n in 0..SAMPLE.len() {
        assert!(Manifest::from_content(&SAMPLE[..n]).is_none(), "cut at {} accepted", n);
        assert!(cms_signing_time(&SAMPLE[..n]).is_none(), "cut at {} gave a time", n);
    }
}

#[test]
fn corrupt_object_yields_nothing() {
    let mut bad = SAMPLE.to_vec();
    bad[0] = 0x31;
    assert!(Manifest::from_content(&bad).is_none());
    assert!(cms_signing_time(&bad).is_none());
}
