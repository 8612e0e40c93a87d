pub mod text_metrics;
pub mod page_furniture;
pub mod bidding_table;
pub mod suit_order;
pub mod layouts;
pub mod compress;
pub mod pdf_document;
pub mod bidding_sheets;
pub mod hand_record;
pub mod dealer_summary;
pub mod card_faces;
pub mod play_record;
